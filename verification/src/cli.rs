//! The command-line surface: the command shapes and a parser for them.
//!
//! The grammar is given exactly by [`spec_parse`]: an optional subcommand
//! (none means the interactive screen), fixed-word subcommands that take no
//! further arguments, `ask` with one or more prompt words, and `task add`
//! with a required title, an optional `--description`/`-d` value and
//! repeatable `--tag`/`-t` values. Anything else is rejected with a
//! message, never a panic.

use vstd::prelude::*;

use vstd::string::StrSliceExecFns;

use crate::tasks::string_views;

verus! {

/// Parsed command line: an optional subcommand; none defaults to the
/// interactive screen.
#[derive(Debug)]
pub struct Cli {
    pub command: Option<Command>,
}

#[derive(Debug, Clone, PartialEq, Eq)]
pub enum Command {
    /// Launch the interactive screen.
    Tui,
    /// Print the version and exit.
    Version,
    /// Run a health check against core subsystems.
    Health,
    /// Manage configuration.
    Config(ConfigCommand),
    /// Ask the agent a question from the terminal.
    Ask { prompt: Vec<String> },
    /// Sync tasks with remote providers.
    Sync,
    /// Manage tasks.
    Task(TaskCommand),
}

#[derive(Debug, Clone, PartialEq, Eq)]
pub enum ConfigCommand {
    /// Create a default configuration file if one does not exist.
    Init,
}

#[derive(Debug, Clone, PartialEq, Eq)]
pub enum TaskCommand {
    /// List tasks.
    List,
    /// Add a new task.
    Add { title: String, description: Option<String>, tag: Vec<String> },
    /// Mark a task as done.
    Done { id: String },
}

/// The view of an optional string.
pub open spec fn opt_view(o: Option<String>) -> Option<Seq<char>> {
    match o {
        Some(s) => Some(s@),
        None => None,
    }
}

/// The mathematical content of a parsed command.
pub ghost enum CommandView {
    Tui,
    Version,
    Health,
    ConfigInit,
    Ask { prompt: Seq<Seq<char>> },
    Sync,
    TaskList,
    TaskAdd { title: Seq<char>, description: Option<Seq<char>>, tags: Seq<Seq<char>> },
    TaskDone { id: Seq<char> },
}

impl View for Command {
    type V = CommandView;

    open spec fn view(&self) -> CommandView {
        match self {
            Command::Tui => CommandView::Tui,
            Command::Version => CommandView::Version,
            Command::Health => CommandView::Health,
            Command::Config(ConfigCommand::Init) => CommandView::ConfigInit,
            Command::Ask { prompt } => CommandView::Ask { prompt: string_views(prompt@) },
            Command::Sync => CommandView::Sync,
            Command::Task(TaskCommand::List) => CommandView::TaskList,
            Command::Task(TaskCommand::Add { title, description, tag }) => CommandView::TaskAdd {
                title: title@,
                description: opt_view(*description),
                tags: string_views(tag@),
            },
            Command::Task(TaskCommand::Done { id }) => CommandView::TaskDone { id: id@ },
        }
    }
}

/// The fields accumulated while reading `task add` arguments.
pub ghost struct AddSpec {
    pub title: Seq<char>,
    pub description: Option<Seq<char>>,
    pub tags: Seq<Seq<char>>,
}

/// A word that looks like a flag.
pub open spec fn is_flag_word(w: Seq<char>) -> bool {
    w.len() > 0 && w[0] == '-'
}

/// The `task add` argument grammar: a required title (the one word that is
/// not a flag and not a flag's value), `--description`/`-d` with one value,
/// given at most once, and `--tag`/`-t` with one value, repeatable; other
/// flags and extra words are rejected.
pub open spec fn spec_parse_add(
    words: Seq<Seq<char>>,
    title: Option<Seq<char>>,
    description: Option<Seq<char>>,
    tags: Seq<Seq<char>>,
) -> Option<AddSpec>
    decreases words.len(),
{
    if words.len() == 0 {
        match title {
            Some(t) => Some(AddSpec { title: t, description, tags }),
            None => None,
        }
    } else if words.first() == "--description"@ || words.first() == "-d"@ {
        if words.len() >= 2 && description is None {
            spec_parse_add(words.subrange(2, words.len() as int), title, Some(words[1]), tags)
        } else {
            None
        }
    } else if words.first() == "--tag"@ || words.first() == "-t"@ {
        if words.len() >= 2 {
            spec_parse_add(words.subrange(2, words.len() as int), title, description, tags.push(words[1]))
        } else {
            None
        }
    } else if is_flag_word(words.first()) {
        None
    } else if title is None {
        spec_parse_add(words.drop_first(), Some(words.first()), description, tags)
    } else {
        None
    }
}

/// The whole grammar: element 0 is the program name; `Some(None)` is "no
/// subcommand"; `None` is a parse error.
pub open spec fn spec_parse(words: Seq<Seq<char>>) -> Option<Option<CommandView>> {
    if words.len() <= 1 {
        Some(None)
    } else {
        let a1 = words[1];
        if a1 == "tui"@ {
            if words.len() == 2 { Some(Some(CommandView::Tui)) } else { None }
        } else if a1 == "version"@ {
            if words.len() == 2 { Some(Some(CommandView::Version)) } else { None }
        } else if a1 == "health"@ {
            if words.len() == 2 { Some(Some(CommandView::Health)) } else { None }
        } else if a1 == "sync"@ {
            if words.len() == 2 { Some(Some(CommandView::Sync)) } else { None }
        } else if a1 == "config"@ {
            if words.len() == 3 && words[2] == "init"@ { Some(Some(CommandView::ConfigInit)) } else { None }
        } else if a1 == "ask"@ {
            if words.len() >= 3 {
                Some(Some(CommandView::Ask { prompt: words.subrange(2, words.len() as int) }))
            } else {
                None
            }
        } else if a1 == "task"@ {
            if words.len() == 2 {
                None
            } else if words[2] == "list"@ {
                if words.len() == 3 { Some(Some(CommandView::TaskList)) } else { None }
            } else if words[2] == "done"@ {
                if words.len() == 4 { Some(Some(CommandView::TaskDone { id: words[3] })) } else { None }
            } else if words[2] == "add"@ {
                match spec_parse_add(words.subrange(3, words.len() as int), None, None, Seq::empty()) {
                    Some(a) => Some(Some(CommandView::TaskAdd {
                        title: a.title,
                        description: a.description,
                        tags: a.tags,
                    })),
                    None => None,
                }
            } else {
                None
            }
        } else {
            None
        }
    }
}

/// The given string holds exactly this word.
fn word_is(s: &String, w: &str) -> (r: bool)
    ensures
        r == (s@ == w@),
{
    let owned: String = w.to_owned();
    *s == owned
}

/// The given string looks like a flag.
fn flag_like(s: &String) -> (r: bool)
    ensures
        r == is_flag_word(s@),
{
    if s.as_str().is_empty() {
        false
    } else {
        s.as_str().get_char(0) == '-'
    }
}

/// A parse error with the given message.
fn parse_err(reason: &str) -> (r: Result<Cli, String>)
    ensures
        r is Err,
{
    Err(reason.to_owned())
}

impl Cli {
    /// Parse a full argument list, program name first, against the grammar
    /// of [`spec_parse`]: the result is the parsed command exactly when the
    /// arguments fit the grammar, and an error message exactly when they do
    /// not.
    pub fn try_parse_from(args: &Vec<String>) -> (r: Result<Cli, String>)
        ensures
            r matches Ok(c) ==> spec_parse(string_views(args@)) == Some(match c.command {
                Some(cmd) => Some(cmd@),
                None => None::<CommandView>,
            }),
            r is Err <==> spec_parse(string_views(args@)) is None,
    {
        if args.len() <= 1 {
            return Ok(Cli { command: None });
        }
        if word_is(&args[1], "tui") {
            if args.len() == 2 {
                Ok(Cli { command: Some(Command::Tui) })
            } else {
                parse_err("unexpected argument after subcommand")
            }
        } else if word_is(&args[1], "version") {
            if args.len() == 2 {
                Ok(Cli { command: Some(Command::Version) })
            } else {
                parse_err("unexpected argument after subcommand")
            }
        } else if word_is(&args[1], "health") {
            if args.len() == 2 {
                Ok(Cli { command: Some(Command::Health) })
            } else {
                parse_err("unexpected argument after subcommand")
            }
        } else if word_is(&args[1], "sync") {
            if args.len() == 2 {
                Ok(Cli { command: Some(Command::Sync) })
            } else {
                parse_err("unexpected argument after subcommand")
            }
        } else if word_is(&args[1], "config") {
            if args.len() == 3 && word_is(&args[2], "init") {
                Ok(Cli { command: Some(Command::Config(ConfigCommand::Init)) })
            } else {
                parse_err("expected: config init")
            }
        } else if word_is(&args[1], "ask") {
            if args.len() >= 3 {
                let mut prompt: Vec<String> = Vec::new();
                let mut k: usize = 2;
                proof {
                    assert(string_views(prompt@)
                        =~= string_views(args@).subrange(2, 2));
                }
                while k < args.len()
                    invariant
                        2 <= k <= args@.len(),
                        string_views(prompt@) == string_views(args@).subrange(2, k as int),
                    decreases args@.len() - k,
                {
                    let ghost p0 = prompt@;
                    prompt.push(args[k].clone());
                    proof {
                        assert(string_views(prompt@) =~= string_views(p0).push(args@[k as int]@));
                        assert(string_views(args@).subrange(2, (k + 1) as int)
                            =~= string_views(args@).subrange(2, k as int).push(string_views(args@)[k as int]));
                    }
                    k = k + 1;
                    proof {
                        assert(string_views(prompt@)
                            =~= string_views(args@).subrange(2, k as int));
                    }
                }
                let c = Cli { command: Some(Command::Ask { prompt }) };
                proof {
                    assert(string_views(args@).subrange(2, args@.len() as int)
                        =~= string_views(args@).subrange(2, k as int));
                }
                Ok(c)
            } else {
                parse_err("ask needs a prompt")
            }
        } else if word_is(&args[1], "task") {
            if args.len() == 2 {
                return parse_err("expected a task subcommand");
            }
            if word_is(&args[2], "list") {
                if args.len() == 3 {
                    Ok(Cli { command: Some(Command::Task(TaskCommand::List)) })
                } else {
                    parse_err("unexpected argument after subcommand")
                }
            } else if word_is(&args[2], "done") {
                if args.len() == 4 {
                    Ok(Cli {
                        command: Some(Command::Task(TaskCommand::Done { id: args[3].clone() })),
                    })
                } else {
                    parse_err("expected: task done <id>")
                }
            } else if word_is(&args[2], "add") {
                match Cli::parse_add_args(args) {
                    Ok((t, d, gs)) => Ok(Cli {
                        command: Some(Command::Task(TaskCommand::Add {
                            title: t,
                            description: d,
                            tag: gs,
                        })),
                    }),
                    Err(e) => Err(e),
                }
            } else {
                parse_err("unrecognized task subcommand")
            }
        } else {
            parse_err("unrecognized subcommand")
        }
    }

    /// Parse the arguments after `task add` against the grammar of
    /// [`spec_parse_add`].
    fn parse_add_args(args: &Vec<String>) -> (r: Result<(String, Option<String>, Vec<String>), String>)
        requires
            args@.len() >= 3,
        ensures
            r matches Ok(p) ==> spec_parse_add(
                string_views(args@).subrange(3, args@.len() as int),
                None,
                None,
                Seq::empty(),
            ) == Some(AddSpec { title: p.0@, description: opt_view(p.1), tags: string_views(p.2@) }),
            r is Err <==> spec_parse_add(
                string_views(args@).subrange(3, args@.len() as int),
                None,
                None,
                Seq::empty(),
            ) is None,
    {
        let ghost words = string_views(args@);
        let ghost tail = words.subrange(3, words.len() as int);
        let mut title: Option<String> = None;
        let mut description: Option<String> = None;
        let mut tags: Vec<String> = Vec::new();
        let mut k: usize = 3;
        proof {
            assert(string_views(tags@) =~= Seq::<Seq<char>>::empty());
        }
        while k < args.len()
            invariant
                3 <= k <= args@.len(),
                words == string_views(args@),
                words.len() == args@.len(),
                tail == words.subrange(3, words.len() as int),
                spec_parse_add(tail, None, None, Seq::empty()) == spec_parse_add(
                    words.subrange(k as int, words.len() as int),
                    opt_view(title),
                    opt_view(description),
                    string_views(tags@),
                ),
            decreases args@.len() - k,
        {
            let ghost rest = words.subrange(k as int, words.len() as int);
            proof {
                assert(rest.first() == words[k as int]);
                assert(rest.len() == words.len() - k);
            }
            if word_is(&args[k], "--description") || word_is(&args[k], "-d") {
                if k + 1 < args.len() && description.is_none() {
                    description = Some(args[k + 1].clone());
                    proof {
                        assert(rest[1] == words[k as int + 1]);
                    }
                    k = k + 2;
                    proof {
                        assert(rest.subrange(2, rest.len() as int)
                            =~= words.subrange(k as int, words.len() as int));
                    }
                } else {
                    return parse_err_triple("expected one value for the description");
                }
            } else if word_is(&args[k], "--tag") || word_is(&args[k], "-t") {
                if k + 1 < args.len() {
                    let ghost tags0 = string_views(tags@);
                    tags.push(args[k + 1].clone());
                    proof {
                        assert(rest[1] == words[k as int + 1]);
                        assert(string_views(tags@) =~= tags0.push(words[k as int + 1]));
                    }
                    k = k + 2;
                    proof {
                        assert(rest.subrange(2, rest.len() as int)
                            =~= words.subrange(k as int, words.len() as int));
                    }
                } else {
                    return parse_err_triple("expected one value for the tag");
                }
            } else if flag_like(&args[k]) {
                return parse_err_triple("unrecognized flag");
            } else if title.is_none() {
                title = Some(args[k].clone());
                k = k + 1;
                proof {
                    assert(rest.drop_first()
                        =~= words.subrange(k as int, words.len() as int));
                }
            } else {
                return parse_err_triple("unexpected argument");
            }
        }
        proof {
            assert(words.subrange(k as int, words.len() as int)
                =~= Seq::<Seq<char>>::empty());
        }
        match title {
            Some(t) => Ok((t, description, tags)),
            None => parse_err_triple("task add needs a title"),
        }
    }
}

/// A parse error with the given message, for the argument triple.
fn parse_err_triple(reason: &str) -> (r: Result<(String, Option<String>, Vec<String>), String>)
    ensures
        r is Err,
{
    Err(reason.to_owned())
}

} // verus!

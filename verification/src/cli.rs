use vstd::prelude::*;
use vstd::string::*;

use crate::config::{connection_views, Connection};
use crate::text::{is_blank, is_blank_str};
use crate::ui::{find_connection, find_spec};

verus! {

/// How the program is used, shown with `--help` and with argument errors.
pub const USAGE: &'static str = "Usage:
  ssh-quick-connect            # interactive mode
  ssh-quick-connect --list     # list configured machines
  ssh-quick-connect --connect <name_or_id_or_fragment>";

/// What the command line asks for.
pub enum CliCommand {
    Interactive,
    List,
    Connect(String),
    Help,
}

/// A command with its text as a plain value.
pub enum CommandView {
    Interactive,
    List,
    Connect(Seq<char>),
    Help,
}

impl View for CliCommand {
    type V = CommandView;

    open spec fn view(&self) -> CommandView {
        match self {
            CliCommand::Interactive => CommandView::Interactive,
            CliCommand::List => CommandView::List,
            CliCommand::Connect(q) => CommandView::Connect(q@),
            CliCommand::Help => CommandView::Help,
        }
    }
}

/// What the arguments (program name excluded) mean: nothing for the interactive
/// mode; `--list`/`-l`; `--connect`/`-c` with a non-blank query; `--help`/`-h`.
/// Anything else is an error that shows the usage.
pub open spec fn parse_spec(args: Seq<Seq<char>>) -> Result<CommandView, Seq<char>> {
    if args.len() == 0 {
        Ok(CommandView::Interactive)
    } else if args.len() == 1 && (args[0] == "--list"@ || args[0] == "-l"@) {
        Ok(CommandView::List)
    } else if args.len() == 2 && (args[0] == "--connect"@ || args[0] == "-c"@) {
        if is_blank(args[1]) {
            Err("missing connection name\n\n"@ + USAGE@)
        } else {
            Ok(CommandView::Connect(args[1]))
        }
    } else if args.len() == 1 && (args[0] == "--help"@ || args[0] == "-h"@) {
        Ok(CommandView::Help)
    } else {
        Err("invalid arguments\n\n"@ + USAGE@)
    }
}

proof fn lemma_flags_distinct()
    ensures
        "--list"@ != "--help"@,
        "--list"@ != "-h"@,
        "-l"@ != "--help"@,
        "-l"@ != "-h"@,
{
    reveal_strlit("--list");
    reveal_strlit("--help");
    reveal_strlit("-l");
    reveal_strlit("-h");
    assert("--list"@[2] != "--help"@[2]);
    assert("-l"@[1] != "-h"@[1]);
}

/// What each argument list means: none is the interactive mode; `--list` or
/// `-l` alone is the list; `--help` or `-h` alone is the help; `--connect` or
/// `-c` followed by a non-blank query connects by that query (untrimmed), and
/// followed by a blank one is refused with the usage; every other list is
/// refused with the usage.
pub proof fn lemma_parse_cases(args: Seq<Seq<char>>)
    ensures
        args.len() == 0 ==> parse_spec(args) == Ok::<CommandView, Seq<char>>(
            CommandView::Interactive,
        ),
        args.len() == 1 && (args[0] == "--list"@ || args[0] == "-l"@) ==> parse_spec(args)
            == Ok::<CommandView, Seq<char>>(CommandView::List),
        args.len() == 1 && (args[0] == "--help"@ || args[0] == "-h"@) ==> parse_spec(args)
            == Ok::<CommandView, Seq<char>>(CommandView::Help),
        args.len() == 1 && !(args[0] == "--list"@ || args[0] == "-l"@ || args[0] == "--help"@
            || args[0] == "-h"@) ==> parse_spec(args) == Err::<CommandView, Seq<char>>(
            "invalid arguments\n\n"@ + USAGE@,
        ),
        args.len() == 2 && (args[0] == "--connect"@ || args[0] == "-c"@) && !is_blank(args[1])
            ==> parse_spec(args) == Ok::<CommandView, Seq<char>>(CommandView::Connect(args[1])),
        args.len() == 2 && (args[0] == "--connect"@ || args[0] == "-c"@) && is_blank(args[1])
            ==> parse_spec(args) == Err::<CommandView, Seq<char>>(
            "missing connection name\n\n"@ + USAGE@,
        ),
        args.len() == 2 && !(args[0] == "--connect"@ || args[0] == "-c"@) ==> parse_spec(args)
            == Err::<CommandView, Seq<char>>("invalid arguments\n\n"@ + USAGE@),
        args.len() > 2 ==> parse_spec(args) == Err::<CommandView, Seq<char>>(
            "invalid arguments\n\n"@ + USAGE@,
        ),
{
    lemma_flags_distinct();
}

fn is_flag(arg: &String, flag: &str) -> (r: bool)
    ensures
        r == (arg@ == flag@),
{
    let f = String::from_str(flag);
    *arg == f
}

fn usage_error(lead: &str) -> (r: String)
    ensures
        r@ == lead@ + USAGE@,
{
    let mut r = String::from_str(lead);
    r.append(USAGE);
    r
}

/// Reads the command-line arguments, without the program name.
pub fn parse_cli_args(args: Vec<String>) -> (r: Result<CliCommand, String>)
    ensures
        match parse_spec(args.deep_view()) {
            Ok(c) => r matches Ok(cmd) && cmd@ == c,
            Err(msg) => r matches Err(m) && m@ == msg,
        },
{
    let ghost a = args.deep_view();
    proof {
        if args.len() > 0 {
            assert(a[0] == args@[0]@);
        }
        if args.len() > 1 {
            assert(a[1] == args@[1]@);
        }
    }
    if args.len() == 0 {
        return Ok(CliCommand::Interactive);
    }
    if args.len() == 1 && (is_flag(&args[0], "--list") || is_flag(&args[0], "-l")) {
        return Ok(CliCommand::List);
    }
    if args.len() == 2 && (is_flag(&args[0], "--connect") || is_flag(&args[0], "-c")) {
        if is_blank_str(args[1].as_str()) {
            return Err(usage_error("missing connection name\n\n"));
        } else {
            return Ok(CliCommand::Connect(args[1].clone()));
        }
    }
    if args.len() == 1 && (is_flag(&args[0], "--help") || is_flag(&args[0], "-h")) {
        return Ok(CliCommand::Help);
    }
    Err(usage_error("invalid arguments\n\n"))
}

/// The connection that `query` names, as `find_connection` finds it.
pub fn select_connection<'a>(query: &str, connections: &'a [Connection]) -> (r: Result<
    &'a Connection,
    String,
>)
    ensures
        match find_spec(connection_views(connections@), query@) {
            Ok(i) => r matches Ok(c) && 0 <= i < connections@.len() && *c == connections@[i],
            Err(msg) => r matches Err(m) && m@ == msg,
        },
{
    let idx = find_connection(query, connections)?;
    Ok(&connections[idx])
}

/// The next step of the program.
pub enum RunAction {
    /// The example configuration was just written: say where, and stop.
    ReportCreated,
    /// A configuration exists: load it.
    LoadConfig,
    /// Show the usage text.
    PrintUsage,
    /// Show the numbered list of connections.
    PrintList,
    /// Connect to the connection at this position.
    Connect(usize),
    /// Let the user choose a connection in the terminal menu, then connect.
    ChooseInMenu,
}

/// What follows once the configuration file has been made sure of: when it was
/// just created, the program reports that and stops, whatever the command;
/// otherwise it loads the configuration.
pub fn after_config_ensured(created: bool) -> (a: RunAction)
    ensures
        created ==> a is ReportCreated,
        !created ==> a is LoadConfig,
{
    if created {
        RunAction::ReportCreated
    } else {
        RunAction::LoadConfig
    }
}

/// What the command asks for, once the configuration is loaded: the usage text,
/// the list, the connection that the query names (or why there is none), or the
/// terminal menu.
pub fn action_for(command: &CliCommand, connections: &[Connection]) -> (r: Result<RunAction, String>)
    ensures
        match command@ {
            CommandView::Help => r matches Ok(RunAction::PrintUsage),
            CommandView::List => r matches Ok(RunAction::PrintList),
            CommandView::Interactive => r matches Ok(RunAction::ChooseInMenu),
            CommandView::Connect(q) => match find_spec(connection_views(connections@), q) {
                Ok(i) => r matches Ok(RunAction::Connect(j)) && j == i && i < connections@.len(),
                Err(m) => r matches Err(e) && e@ == m,
            },
        },
{
    match command {
        CliCommand::Help => Ok(RunAction::PrintUsage),
        CliCommand::List => Ok(RunAction::PrintList),
        CliCommand::Interactive => Ok(RunAction::ChooseInMenu),
        CliCommand::Connect(query) => {
            let idx = find_connection(query.as_str(), connections)?;
            Ok(RunAction::Connect(idx))
        },
    }
}

} // verus!

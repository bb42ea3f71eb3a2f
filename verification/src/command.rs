//! The sub-commands of the crawler's command line.

use vstd::prelude::*;

verus! {

/// What the first command-line argument asks for.
#[derive(Clone, Copy, Debug, PartialEq, Eq, Structural)]
pub enum Command {
    /// `addsubreddit`: read subreddit names, fetch their listings, store the posts.
    AddSubreddit,
    /// `fetchdata`: request every stored link and save the pages.
    FetchData,
    /// `viewerrors`: show the links whose request timed out.
    ViewErrors,
    /// `retryerror`: request the links whose request timed out again.
    RetryError,
    /// `help`: list the commands.
    Help,
    /// Anything else.
    Unknown,
}

/// The command that the argument `arg` names.
pub open spec fn command_spec(arg: Seq<char>) -> Command {
    if arg == "addsubreddit"@ {
        Command::AddSubreddit
    } else if arg == "fetchdata"@ {
        Command::FetchData
    } else if arg == "viewerrors"@ {
        Command::ViewErrors
    } else if arg == "retryerror"@ {
        Command::RetryError
    } else if arg == "help"@ {
        Command::Help
    } else {
        Command::Unknown
    }
}

/// Only the five command words name a command, each its own, and no two
/// different arguments name the same command.
pub proof fn lemma_commands_are_their_words(a: Seq<char>, b: Seq<char>)
    ensures
        command_spec(a) != Command::Unknown ==> (a == "addsubreddit"@ || a == "fetchdata"@
            || a == "viewerrors"@ || a == "retryerror"@ || a == "help"@),
        command_spec("addsubreddit"@) == Command::AddSubreddit,
        command_spec("fetchdata"@) == Command::FetchData,
        command_spec("viewerrors"@) == Command::ViewErrors,
        command_spec("retryerror"@) == Command::RetryError,
        command_spec("help"@) == Command::Help,
        command_spec(a) == command_spec(b) && command_spec(a) != Command::Unknown ==> a == b,
{
    reveal_strlit("addsubreddit");
    reveal_strlit("fetchdata");
    reveal_strlit("viewerrors");
    reveal_strlit("retryerror");
    reveal_strlit("help");
    assert("addsubreddit"@[0] == 'a');
    assert("fetchdata"@[0] == 'f');
    assert("viewerrors"@[0] == 'v');
    assert("retryerror"@[0] == 'r');
    assert("help"@[0] == 'h');
}

impl Command {
    /// Reads the command named by the argument `arg`.
    pub fn parse(arg: &str) -> (c: Command)
        ensures
            c == command_spec(arg@),
    {
        let a = arg.to_owned();
        if a == "addsubreddit".to_owned() {
            Command::AddSubreddit
        } else if a == "fetchdata".to_owned() {
            Command::FetchData
        } else if a == "viewerrors".to_owned() {
            Command::ViewErrors
        } else if a == "retryerror".to_owned() {
            Command::RetryError
        } else if a == "help".to_owned() {
            Command::Help
        } else {
            Command::Unknown
        }
    }
}

} // verus!

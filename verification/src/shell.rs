//! The commands of an interactive prompt over a volume: what a typed line
//! means, and what a change of directory comes to. Reading the line and
//! printing the answer are left to the caller.

use vstd::prelude::*;
use crate::dir_entry::DirEntryView;
use crate::error::FatError;
use crate::path::{resolve_path, spec_resolve_path, SEPARATOR};
use crate::text::{same_text, spec_fields, split_fields, Separator};
use crate::volume::Fat32;

verus! {

/// What a line typed at the prompt asks for. Paths are absolute: what was
/// typed has been resolved against the current directory.
#[derive(Debug)]
pub enum Command {
    /// Nothing but white space was typed.
    Empty,
    /// Leave the prompt.
    Exit,
    /// Show the list of commands.
    Help,
    /// Show the current directory.
    Pwd,
    /// List the directory at this path.
    Ls(String),
    /// Show the file at this path.
    Cat(String),
    /// `cat` was typed without a path.
    CatUsage,
    /// Make the directory at this path the current one.
    Cd(String),
    /// The first word is no command; it is kept for the message.
    Unknown(String),
}

/// A `Command` with its texts as sequences of characters.
pub enum CommandView {
    Empty,
    Exit,
    Help,
    Pwd,
    Ls(Seq<char>),
    Cat(Seq<char>),
    CatUsage,
    Cd(Seq<char>),
    Unknown(Seq<char>),
}

impl View for Command {
    type V = CommandView;

    open spec fn view(&self) -> CommandView {
        match self {
            Command::Empty => CommandView::Empty,
            Command::Exit => CommandView::Exit,
            Command::Help => CommandView::Help,
            Command::Pwd => CommandView::Pwd,
            Command::Ls(p) => CommandView::Ls(p@),
            Command::Cat(p) => CommandView::Cat(p@),
            Command::CatUsage => CommandView::CatUsage,
            Command::Cd(p) => CommandView::Cd(p@),
            Command::Unknown(w) => CommandView::Unknown(w@),
        }
    }
}

/// The words of a line: its runs of characters other than white space.
pub open spec fn spec_words(line: Seq<char>) -> Seq<Seq<char>> {
    spec_fields(line, Separator::Whitespace)
}

/// What `line` asks for when typed in the directory `current`. The first
/// word names the command and the second, where the command takes a path, is
/// that path; further words are ignored. Without a path `ls` lists the current
/// directory and `cd` goes to the root.
pub open spec fn spec_parse_command(current: Seq<char>, line: Seq<char>) -> CommandView {
    let words = spec_words(line);
    if words.len() == 0 {
        CommandView::Empty
    } else if words[0] == "exit"@ || words[0] == "quit"@ {
        CommandView::Exit
    } else if words[0] == "help"@ {
        CommandView::Help
    } else if words[0] == "pwd"@ {
        CommandView::Pwd
    } else if words[0] == "ls"@ {
        if words.len() > 1 {
            CommandView::Ls(spec_resolve_path(current, words[1]))
        } else {
            CommandView::Ls(current)
        }
    } else if words[0] == "cat"@ {
        if words.len() > 1 {
            CommandView::Cat(spec_resolve_path(current, words[1]))
        } else {
            CommandView::CatUsage
        }
    } else if words[0] == "cd"@ {
        if words.len() > 1 {
            CommandView::Cd(spec_resolve_path(current, words[1]))
        } else {
            CommandView::Cd(seq![SEPARATOR])
        }
    } else {
        CommandView::Unknown(words[0])
    }
}

/// Reads one line typed at the prompt in the directory `current`.
pub fn parse_command(current: &str, line: &str) -> (r: Command)
    ensures
        r@ == spec_parse_command(current@, line@),
{
    let words = split_fields(line, Separator::Whitespace);
    if words.len() == 0 {
        return Command::Empty;
    }
    let name = words[0].as_str();
    if same_text(name, "exit") || same_text(name, "quit") {
        Command::Exit
    } else if same_text(name, "help") {
        Command::Help
    } else if same_text(name, "pwd") {
        Command::Pwd
    } else if same_text(name, "ls") {
        if words.len() > 1 {
            Command::Ls(resolve_path(current, words[1].as_str()))
        } else {
            Command::Ls(current.to_owned())
        }
    } else if same_text(name, "cat") {
        if words.len() > 1 {
            Command::Cat(resolve_path(current, words[1].as_str()))
        } else {
            Command::CatUsage
        }
    } else if same_text(name, "cd") {
        if words.len() > 1 {
            Command::Cd(resolve_path(current, words[1].as_str()))
        } else {
            let root = "/".to_owned();
            proof {
                reveal_strlit("/");
                assert(root@ =~= seq![SEPARATOR]);
            }
            Command::Cd(root)
        }
    } else {
        Command::Unknown(name.to_owned())
    }
}

/// How a change of directory ended.
#[derive(Debug, Clone, Copy, PartialEq, Eq, Structural)]
pub enum CdOutcome {
    /// The target is a directory and is now the current one.
    Entered,
    /// The target exists and is no directory.
    NotADirectory,
    /// The target names nothing.
    NotFound,
    /// The volume could not be read.
    Failed(FatError),
}

/// How a change to the directory that was looked up ends.
pub open spec fn spec_cd_outcome(lookup: Result<Option<DirEntryView>, FatError>) -> CdOutcome {
    match lookup {
        Ok(Some(entry)) => if entry.attrs.directory {
            CdOutcome::Entered
        } else {
            CdOutcome::NotADirectory
        },
        Ok(None) => CdOutcome::NotFound,
        Err(e) => CdOutcome::Failed(e),
    }
}

/// Changes the current directory to `target` where that is a directory of
/// the volume; else the current directory stays.
pub fn change_dir(fs: &Fat32, current: &mut String, target: String) -> (r: CdOutcome)
    ensures
        r == spec_cd_outcome(fs@.open_path(target@)),
        final(current)@ == if r == CdOutcome::Entered {
            target@
        } else {
            old(current)@
        },
{
    match fs.open_path(target.as_str()) {
        Ok(Some(entry)) => {
            if entry.is_dir() {
                *current = target;
                CdOutcome::Entered
            } else {
                CdOutcome::NotADirectory
            }
        },
        Ok(None) => CdOutcome::NotFound,
        Err(e) => CdOutcome::Failed(e),
    }
}

} // verus!

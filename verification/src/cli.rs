//! The commands of the tool as plain values, as they stand after the command
//! line was parsed.

use vstd::prelude::*;
use crate::config::GLOBAL_DEFAULT_GROUP_NAME;
use crate::text::str_eq;

verus! {

/// A parsed command line.
pub struct Cli {
    pub command: Commands,
}

/// The commands.
pub enum Commands {
    /// Run a program.
    Run(RunCommand),
    /// Add a new executable to a group.
    Add(AddCommand),
    /// List all groups and their executables.
    List(ListCommand),
    /// Initialize the configuration file.
    Init(InitCommand),
    /// Remove an executable from a group.
    Rm(RmCommand),
    /// Switch to a group.
    Switch(SwitchCommand),
    /// Rename an executable alias.
    Rename(RenameCommand),
    /// Show detailed information about an executable.
    Info(InfoCommand),
    /// Enable an executable.
    Enable(EnableCommand),
    /// Disable an executable.
    Disable(DisableCommand),
    /// Search for executables.
    Search(SearchCommand),
}

pub struct RunCommand {
    /// The name of the group.
    pub group: Option<String>,
    /// The program, followed by the arguments to pass to it.
    pub args: Option<Vec<String>>,
}

pub struct AddCommand {
    /// The name of the group.
    pub group: Option<String>,
    /// The path to the executable.
    pub path: String,
    /// Alias for the executable.
    pub name: Option<String>,
}

pub struct ListCommand {
    /// Show all groups.
    pub all: bool,
}

pub struct InitCommand {
    /// Initialize again, overwriting an existing configuration file.
    pub force: bool,
}

pub struct RmCommand {
    /// The name of the group.
    pub group: Option<String>,
    /// The name of the executable to remove.
    pub name: Option<String>,
    /// Hard delete.
    pub delete: bool,
}

pub struct SwitchCommand {
    /// The name of the group.
    pub group: Option<String>,
}

pub struct RenameCommand {
    /// The name of the group.
    pub group: Option<String>,
    /// The current name of the executable.
    pub old_name: String,
    /// The new name for the executable.
    pub new_name: String,
}

pub struct InfoCommand {
    /// The name of the group.
    pub group: Option<String>,
    /// The name of the executable.
    pub name: String,
}

pub struct EnableCommand {
    /// The name of the group.
    pub group: Option<String>,
    /// The name of the executable.
    pub name: String,
}

pub struct DisableCommand {
    /// The name of the group.
    pub group: Option<String>,
    /// The name of the executable.
    pub name: String,
}

pub struct SearchCommand {
    /// Search query, matched against the name or the path of an executable.
    pub query: String,
}

/// The group that a command is about: the one it names, or the default
/// group.
pub open spec fn group_or_default(group: Option<String>) -> Seq<char> {
    match group {
        Some(g) => g@,
        None => GLOBAL_DEFAULT_GROUP_NAME@,
    }
}

/// The group that a command is about: the one it names, or the default
/// group.
pub fn group_name(group: &Option<String>) -> (name: &str)
    ensures
        name@ == group_or_default(*group),
{
    match group {
        Some(g) => g.as_str(),
        None => GLOBAL_DEFAULT_GROUP_NAME,
    }
}

/// Whether `word` is the name of a command, or the short form of one.
pub open spec fn names_command(word: Seq<char>) -> bool {
    ||| word == "run"@
    ||| word == "r"@
    ||| word == "add"@
    ||| word == "rm"@
    ||| word == "list"@
    ||| word == "ls"@
    ||| word == "init"@
    ||| word == "s"@
    ||| word == "switch"@
    ||| word == "rename"@
    ||| word == "info"@
    ||| word == "enable"@
    ||| word == "disable"@
    ||| word == "search"@
}

/// Whether the first word of a command line names a command. A command line
/// that starts with any other word is a `run` with the command name left
/// out.
pub fn is_subcommand(word: &str) -> (known: bool)
    ensures
        known == names_command(word@),
{
    str_eq(word, "run") || str_eq(word, "r") || str_eq(word, "add") || str_eq(word, "rm")
        || str_eq(word, "list") || str_eq(word, "ls") || str_eq(word, "init") || str_eq(word, "s")
        || str_eq(word, "switch") || str_eq(word, "rename") || str_eq(word, "info") || str_eq(
        word,
        "enable",
    ) || str_eq(word, "disable") || str_eq(word, "search")
}

} // verus!

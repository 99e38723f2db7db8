//! The failures that the library reports.

use vstd::prelude::*;
use vstd::string::StringExecFns;

verus! {

/// Why an operation was refused.
#[allow(inconsistent_fields)]
#[derive(Debug, PartialEq, Eq)]
pub enum Error {
    /// The group is not registered (`name` is `None`), or it holds no record
    /// of that name.
    NotFound { group: String, name: Option<String> },
    /// The group already holds a record of that name.
    NameCollision { group: String, name: String },
    /// What is to be registered is neither an executable file nor a directory.
    InvalidPathKind,
    /// The name of a directory entry cannot be written as text.
    NonUtf8Name,
    /// No program was given to run.
    NoProgram,
    /// No path was given to register.
    NoPath,
    /// The user's home directory is not known.
    NoHomeDir,
    /// There is no configuration file yet.
    NotConfigured,
    /// There is a configuration file already: the one at `path`.
    AlreadyConfigured { path: String },
    /// The kind of shell is not known.
    UnknownShell,
    /// The program that was asked for is no longer where it is expected.
    TargetMissing { path: String },
    /// The program could not be started, directly or through an interpreter.
    SpawnFailed { command: String },
}

/// An error over plain sequences of characters.
#[allow(inconsistent_fields)]
pub enum ErrorView {
    NotFound { group: Seq<char>, name: Option<Seq<char>> },
    NameCollision { group: Seq<char>, name: Seq<char> },
    InvalidPathKind,
    NonUtf8Name,
    NoProgram,
    NoPath,
    NoHomeDir,
    NotConfigured,
    AlreadyConfigured { path: Seq<char> },
    UnknownShell,
    TargetMissing { path: Seq<char> },
    SpawnFailed { command: Seq<char> },
}

impl View for Error {
    type V = ErrorView;

    open spec fn view(&self) -> ErrorView {
        match *self {
            Error::NotFound { group, name } => ErrorView::NotFound {
                group: group@,
                name: match name {
                    Some(n) => Some(n@),
                    None => None,
                },
            },
            Error::NameCollision { group, name } => ErrorView::NameCollision {
                group: group@,
                name: name@,
            },
            Error::InvalidPathKind => ErrorView::InvalidPathKind,
            Error::NonUtf8Name => ErrorView::NonUtf8Name,
            Error::NoProgram => ErrorView::NoProgram,
            Error::NoPath => ErrorView::NoPath,
            Error::NoHomeDir => ErrorView::NoHomeDir,
            Error::NotConfigured => ErrorView::NotConfigured,
            Error::AlreadyConfigured { path } => ErrorView::AlreadyConfigured { path: path@ },
            Error::UnknownShell => ErrorView::UnknownShell,
            Error::TargetMissing { path } => ErrorView::TargetMissing { path: path@ },
            Error::SpawnFailed { command } => ErrorView::SpawnFailed { command: command@ },
        }
    }
}

impl ErrorView {
    /// The sentence that tells a user what went wrong.
    pub open spec fn message(self) -> Seq<char> {
        match self {
            ErrorView::NotFound { group, name: None } => "group "@ + group + " does not exist"@,
            ErrorView::NotFound { group, name: Some(name) } => "executable "@ + name
                + " not found in group "@ + group,
            ErrorView::NameCollision { group, name } => "executable "@ + name
                + " already exists in group "@ + group,
            ErrorView::InvalidPathKind => "path is neither an executable file nor a directory"@,
            ErrorView::NonUtf8Name => "non-utf8 filename"@,
            ErrorView::NoProgram => "No program specified"@,
            ErrorView::NoPath => "No path specified"@,
            ErrorView::NoHomeDir => "cannot get home dir"@,
            ErrorView::NotConfigured => "config file does not exist, please run `x init` first"@,
            ErrorView::AlreadyConfigured { path } => "config file "@ + path
                + " already exists. Use `-f` to overwrite."@,
            ErrorView::UnknownShell => "unknown shell type"@,
            ErrorView::TargetMissing { path } => "Program path "@ + path + " does not exist"@,
            ErrorView::SpawnFailed { command } => "Failed to run command "@ + command,
        }
    }
}

impl Error {
    /// The sentence that tells a user what went wrong.
    pub fn message(&self) -> (text: String)
        ensures
            text@ == self@.message(),
    {
        match self {
            Error::NotFound { group, name: None } => {
                let mut text = String::from_str("group ");
                text.append(group.as_str());
                text.append(" does not exist");
                text
            },
            Error::NotFound { group, name: Some(name) } => {
                let mut text = String::from_str("executable ");
                text.append(name.as_str());
                text.append(" not found in group ");
                text.append(group.as_str());
                text
            },
            Error::NameCollision { group, name } => {
                let mut text = String::from_str("executable ");
                text.append(name.as_str());
                text.append(" already exists in group ");
                text.append(group.as_str());
                text
            },
            Error::InvalidPathKind => String::from_str(
                "path is neither an executable file nor a directory",
            ),
            Error::NonUtf8Name => String::from_str("non-utf8 filename"),
            Error::NoProgram => String::from_str("No program specified"),
            Error::NoPath => String::from_str("No path specified"),
            Error::NoHomeDir => String::from_str("cannot get home dir"),
            Error::NotConfigured => String::from_str(
                "config file does not exist, please run `x init` first",
            ),
            Error::AlreadyConfigured { path } => {
                let mut text = String::from_str("config file ");
                text.append(path.as_str());
                text.append(" already exists. Use `-f` to overwrite.");
                text
            },
            Error::UnknownShell => String::from_str("unknown shell type"),
            Error::TargetMissing { path } => {
                let mut text = String::from_str("Program path ");
                text.append(path.as_str());
                text.append(" does not exist");
                text
            },
            Error::SpawnFailed { command } => {
                let mut text = String::from_str("Failed to run command ");
                text.append(command.as_str());
                text
            },
        }
    }
}

} // verus!

//! Shell integration: which shell a user runs, where its configuration
//! lives, and the line that puts the managed directory on `PATH`.

use vstd::prelude::*;
use vstd::string::StringExecFns;
use crate::error::{Error, ErrorView};
use crate::paths::{join, joined};
use crate::text::{
    chars_of, contains, contains_chars, line_views, lines, lines_of, occurs_in, str_eq,
};

verus! {

/// The shells that are known.
#[derive(Debug, PartialEq)]
pub enum ShellType {
    Bash,
    Zsh,
    Fish,
    Unknown,
}

/// The shell that a program called `name` is.
pub open spec fn shell_called(name: Seq<char>) -> ShellType {
    if name == "bash"@ {
        ShellType::Bash
    } else if name == "zsh"@ {
        ShellType::Zsh
    } else if name == "fish"@ {
        ShellType::Fish
    } else {
        ShellType::Unknown
    }
}

/// The kind of shell that the program called `shell_name` is: the file name
/// of the user's shell, without its directory.
pub fn detect_shell(shell_name: &str) -> (shell: ShellType)
    ensures
        shell == shell_called(shell_name@),
{
    if str_eq(shell_name, "bash") {
        ShellType::Bash
    } else if str_eq(shell_name, "zsh") {
        ShellType::Zsh
    } else if str_eq(shell_name, "fish") {
        ShellType::Fish
    } else {
        ShellType::Unknown
    }
}

/// The configuration file of a shell, for the user whose home directory is
/// `home`. Bash reads `.bashrc` where there is one and `.bash_profile`
/// otherwise.
pub open spec fn shell_config_in(shell: ShellType, home: Seq<char>, bashrc_exists: bool) -> Seq<
    char,
> {
    match shell {
        ShellType::Bash => if bashrc_exists {
            joined(home, ".bashrc"@)
        } else {
            joined(home, ".bash_profile"@)
        },
        ShellType::Zsh => joined(home, ".zshrc"@),
        ShellType::Fish => joined(joined(joined(home, ".config"@), "fish"@), "config.fish"@),
        ShellType::Unknown => Seq::empty(),
    }
}

/// The configuration file of the shell. `bashrc_exists` says whether the
/// home directory holds a `.bashrc`. For fish the caller creates the
/// directory of the file where it is missing.
pub fn get_shell_config_path(
    shell_type: &ShellType,
    home: Option<&str>,
    bashrc_exists: bool,
) -> (path: Result<String, Error>)
    ensures
        match path {
            Ok(p) => home matches Some(h) && *shell_type != ShellType::Unknown && p@
                == shell_config_in(*shell_type, h@, bashrc_exists),
            Err(e) => e@ == if home is None {
                ErrorView::NoHomeDir
            } else {
                ErrorView::UnknownShell
            } && (home is None || *shell_type == ShellType::Unknown),
        },
{
    let home = match home {
        Some(h) => h,
        None => {
            return Err(Error::NoHomeDir);
        },
    };
    match shell_type {
        ShellType::Bash => if bashrc_exists {
            Ok(join(home, ".bashrc"))
        } else {
            Ok(join(home, ".bash_profile"))
        },
        ShellType::Zsh => Ok(join(home, ".zshrc")),
        ShellType::Fish => {
            let config = join(home, ".config");
            let fish = join(config.as_str(), "fish");
            Ok(join(fish.as_str(), "config.fish"))
        },
        ShellType::Unknown => Err(Error::UnknownShell),
    }
}

/// The ways in which a configuration file may put `bin_dir` on `PATH`.
pub open spec fn path_settings(bin_dir: Seq<char>) -> Seq<Seq<char>> {
    seq![
        "export PATH=\""@ + bin_dir + ":$PATH\""@,
        "export PATH='"@ + bin_dir + ":$PATH'"@,
        "export PATH="@ + bin_dir + ":$PATH"@,
        "set -gx PATH "@ + bin_dir + " $PATH"@,
        "set PATH "@ + bin_dir + " $PATH"@,
    ]
}

/// The line holds both `PATH` and `bin_dir`.
pub open spec fn names_path(line: Seq<char>, bin_dir: Seq<char>) -> bool {
    occurs_in("PATH"@, line) && occurs_in(bin_dir, line)
}

/// Whether a configuration file with this content puts `bin_dir` on
/// `PATH`: it holds one of the settings, or a line of it holds both `PATH`
/// and `bin_dir`.
pub open spec fn sets_path(content: Seq<char>, bin_dir: Seq<char>) -> bool {
    ||| exists|i: int|
        0 <= i < path_settings(bin_dir).len() && occurs_in(path_settings(bin_dir)[i], content)
    ||| exists|i: int|
        0 <= i < lines_of(content).len() && names_path(lines_of(content)[i], bin_dir)
}

/// Whether some line of `lines` holds both `PATH` and `bin_dir`.
fn some_line_names_path(lines: &Vec<Vec<char>>, bin_dir: &Vec<char>) -> (found: bool)
    ensures
        found == exists|i: int|
            0 <= i < lines@.len() && names_path(line_views(lines@)[i], bin_dir@),
{
    let word = chars_of("PATH");
    let mut i: usize = 0;
    while i < lines.len()
        invariant
            i <= lines.len(),
            word@ == "PATH"@,
            forall|k: int| 0 <= k < i ==> !names_path(line_views(lines@)[k], bin_dir@),
        decreases lines.len() - i,
    {
        if contains_chars(&lines[i], &word) && contains_chars(&lines[i], bin_dir) {
            assert(names_path(line_views(lines@)[i as int], bin_dir@));
            return true;
        }
        i += 1;
    }
    false
}

/// Whether a shell configuration file already puts the managed directory
/// on `PATH`. `content` is what the file holds, `None` where there is no
/// file; a file that is missing puts nothing on `PATH`.
pub fn path_exists_in_config(content: Option<&str>, bin_dir: &str) -> (found: bool)
    ensures
        found == match content {
            Some(c) => sets_path(c@, bin_dir@),
            None => false,
        },
{
    let content = match content {
        Some(c) => c,
        None => {
            return false;
        },
    };
    let ghost settings = path_settings(bin_dir@);
    let mut first = String::from_str("export PATH=\"");
    first.append(bin_dir);
    first.append(":$PATH\"");
    let mut second = String::from_str("export PATH='");
    second.append(bin_dir);
    second.append(":$PATH'");
    let mut third = String::from_str("export PATH=");
    third.append(bin_dir);
    third.append(":$PATH");
    let mut fourth = String::from_str("set -gx PATH ");
    fourth.append(bin_dir);
    fourth.append(" $PATH");
    let mut fifth = String::from_str("set PATH ");
    fifth.append(bin_dir);
    fifth.append(" $PATH");
    assert(first@ == settings[0] && second@ == settings[1] && third@ == settings[2] && fourth@
        == settings[3] && fifth@ == settings[4]);
    if contains(content, first.as_str()) || contains(content, second.as_str()) || contains(
        content,
        third.as_str(),
    ) || contains(content, fourth.as_str()) || contains(content, fifth.as_str()) {
        return true;
    }
    let text = lines(content);
    let dir = chars_of(bin_dir);
    some_line_names_path(&text, &dir)
}

/// The setting that puts `bin_dir` on `PATH`, in the language of the shell.
pub open spec fn path_setting(shell: ShellType, bin_dir: Seq<char>) -> Seq<char> {
    match shell {
        ShellType::Fish => "set -gx PATH "@ + bin_dir + " $PATH"@,
        _ => "export PATH=\""@ + bin_dir + ":$PATH\""@,
    }
}

/// A configuration file after the setting for `bin_dir` was added: what it
/// held, ended with a line feed unless it was empty or ended with one; an
/// empty line; a comment that says where the setting comes from; and the
/// setting.
pub open spec fn with_path_setting(content: Seq<char>, shell: ShellType, bin_dir: Seq<char>) -> Seq<
    char,
> {
    let ended = if content.len() > 0 && content.last() != '\n' {
        content + "\n"@
    } else {
        content
    };
    ended + "\n# Added by x - https://github.com/dwpeng/x\n"@ + path_setting(shell, bin_dir)
        + "\n"@
}

/// What a shell configuration file is to hold so that the managed
/// directory is on `PATH`. `content` is what the file holds now, `None`
/// where there is no file yet. For a shell of unknown kind there is no such
/// setting.
pub fn add_path_to_config(shell_type: &ShellType, content: Option<&str>, bin_dir: &str) -> (updated:
    Result<String, Error>)
    ensures
        match updated {
            Ok(text) => *shell_type != ShellType::Unknown && text@ == with_path_setting(
                match content {
                    Some(c) => c@,
                    None => Seq::empty(),
                },
                *shell_type,
                bin_dir@,
            ),
            Err(e) => *shell_type == ShellType::Unknown && e@ == ErrorView::UnknownShell,
        },
{
    let mut text = match content {
        Some(c) => String::from_str(c),
        None => String::new(),
    };
    let chars = chars_of(text.as_str());
    if chars.len() > 0 && chars[chars.len() - 1] != '\n' {
        text.append("\n");
    }
    text.append("\n# Added by x - https://github.com/dwpeng/x\n");
    match shell_type {
        ShellType::Bash | ShellType::Zsh => {
            text.append("export PATH=\"");
            text.append(bin_dir);
            text.append(":$PATH\"");
        },
        ShellType::Fish => {
            text.append("set -gx PATH ");
            text.append(bin_dir);
            text.append(" $PATH");
        },
        ShellType::Unknown => {
            return Err(Error::UnknownShell);
        },
    }
    text.append("\n");
    proof {
        let before: Seq<char> = match content {
            Some(c) => c@,
            None => Seq::empty(),
        };
        assert(text@ =~= with_path_setting(before, *shell_type, bin_dir@));
    }
    Ok(text)
}

/// Whether setting the tool up has something to add to a shell
/// configuration file: the shell is of a known kind, and the file does not
/// put the managed directory on `PATH` yet.
pub open spec fn offers_path(
    shell: ShellType,
    content: Option<Seq<char>>,
    bin_dir: Seq<char>,
) -> bool {
    shell != ShellType::Unknown && !(content matches Some(c) && sets_path(c, bin_dir))
}

/// The text of an optional string slice.
pub open spec fn content_of(content: Option<&str>) -> Option<Seq<char>> {
    match content {
        Some(c) => Some(c@),
        None => None,
    }
}

/// Whether setting the tool up has something to add to the file.
fn offers(shell_type: &ShellType, content: Option<&str>, bin_dir: &str) -> (offer: bool)
    ensures
        offer == offers_path(*shell_type, content_of(content), bin_dir@),
{
    match shell_type {
        ShellType::Unknown => false,
        _ => !path_exists_in_config(content, bin_dir),
    }
}

/// The question to put to the user before the shell configuration file at
/// `config_path` is changed: none where there is nothing to add.
pub fn path_question(
    shell_type: &ShellType,
    content: Option<&str>,
    bin_dir: &str,
    config_path: &str,
) -> (question: Option<String>)
    ensures
        match question {
            Some(q) => offers_path(*shell_type, content_of(content), bin_dir@) && q@
                == "Add it to "@ + config_path@ + "?"@,
            None => !offers_path(*shell_type, content_of(content), bin_dir@),
        },
{
    if offers(shell_type, content, bin_dir) {
        let mut text = String::from_str("Add it to ");
        text.append(config_path);
        text.append("?");
        Some(text)
    } else {
        None
    }
}

/// What the shell configuration file is to hold once the tool is set up:
/// what it held with the setting added, where there is something to add
/// and the user agreed; otherwise nothing is to be written.
pub fn ensure_path_in_config(
    shell_type: &ShellType,
    content: Option<&str>,
    bin_dir: &str,
    agreed: bool,
) -> (updated: Option<String>)
    ensures
        match updated {
            Some(text) => agreed && offers_path(*shell_type, content_of(content), bin_dir@) && text@
                == with_path_setting(
                match content {
                    Some(c) => c@,
                    None => Seq::empty(),
                },
                *shell_type,
                bin_dir@,
            ),
            None => !(agreed && offers_path(*shell_type, content_of(content), bin_dir@)),
        },
{
    if agreed && offers(shell_type, content, bin_dir) {
        match add_path_to_config(shell_type, content, bin_dir) {
            Ok(text) => Some(text),
            Err(_) => None,
        }
    } else {
        None
    }
}

} // verus!

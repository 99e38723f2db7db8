//! Which files count as executable, and what a path is when it is to be
//! registered.

use vstd::prelude::*;
use crate::text::{chars_eq, chars_of};

verus! {

/// The permission bits that let the owner, the group or anyone else execute
/// a file.
pub const EXECUTE_BITS: u32 = 0o111;

/// Whether a file with the permission bits `mode` is executable: some
/// execute bit is set.
pub open spec fn executable_mode(mode: u32) -> bool {
    mode & EXECUTE_BITS != 0
}

/// Whether a file is executable, by its permission bits; `None` stands for
/// a file whose permissions cannot be read, which is not.
pub fn is_executable(mode: Option<u32>) -> (executable: bool)
    ensures
        executable == match mode {
            Some(m) => executable_mode(m),
            None => false,
        },
{
    match mode {
        Some(m) => m & EXECUTE_BITS != 0,
        None => false,
    }
}

/// What a path is when it is to be registered.
#[derive(Debug, Clone, Copy, PartialEq, Eq, Structural)]
pub enum PathKind {
    /// A regular file that is executable: it is registered by itself.
    ExecutableFile,
    /// A directory: the executable files directly in it are registered.
    Directory,
    /// Neither: it cannot be registered.
    Other,
}

/// What a path is, from what the file system says of it. A regular file
/// that is not executable is nothing that can be registered.
pub open spec fn kind_of(is_file: bool, executable: bool, is_dir: bool) -> PathKind {
    if is_file && executable {
        PathKind::ExecutableFile
    } else if is_dir {
        PathKind::Directory
    } else {
        PathKind::Other
    }
}

/// What a path is, given whether it is a regular file, whether it is
/// executable, and whether it is a directory.
pub fn classify(is_file: bool, executable: bool, is_dir: bool) -> (kind: PathKind)
    ensures
        kind == kind_of(is_file, executable, is_dir),
{
    if is_file && executable {
        PathKind::ExecutableFile
    } else if is_dir {
        PathKind::Directory
    } else {
        PathKind::Other
    }
}

/// The lowercase form of an ASCII capital; any other character is itself.
pub open spec fn ascii_lower(c: char) -> char {
    if 'A' <= c <= 'Z' {
        ((c as u8) + 32) as char
    } else {
        c
    }
}

/// Whether a file with the extension `extension` is executable where
/// extensions decide: it is `exe`, `bat`, `cmd`, `ps1` or `com`, in any
/// mix of ASCII cases.
pub open spec fn executable_extension(extension: Seq<char>) -> bool {
    let lower = extension.map_values(|c: char| ascii_lower(c));
    lower == "exe"@ || lower == "bat"@ || lower == "cmd"@ || lower == "ps1"@ || lower == "com"@
}

/// Whether a file is executable, by its extension; `None` stands for a file
/// without one, which is not.
pub fn has_executable_extension(extension: Option<&str>) -> (executable: bool)
    ensures
        executable == match extension {
            Some(e) => executable_extension(e@),
            None => false,
        },
{
    let extension = match extension {
        Some(e) => e,
        None => {
            return false;
        },
    };
    let chars = chars_of(extension);
    let mut lower: Vec<char> = Vec::new();
    let mut i: usize = 0;
    while i < chars.len()
        invariant
            i <= chars.len(),
            lower@ =~= chars@.take(i as int).map_values(|c: char| ascii_lower(c)),
        decreases chars.len() - i,
    {
        let c = chars[i];
        let l = if 'A' <= c && c <= 'Z' {
            ((c as u8) + 32) as char
        } else {
            c
        };
        assert(chars@.take(i + 1) =~= chars@.take(i as int).push(c));
        lower.push(l);
        i += 1;
    }
    assert(chars@.take(chars.len() as int) =~= chars@);
    chars_eq(&lower, &chars_of("exe")) || chars_eq(&lower, &chars_of("bat")) || chars_eq(
        &lower,
        &chars_of("cmd"),
    ) || chars_eq(&lower, &chars_of("ps1")) || chars_eq(&lower, &chars_of("com"))
}

} // verus!

//! Registry of executable aliases, kept in named groups, and the rules that
//! keep a managed directory of symbolic links in step with the active group.
//!
//! The library decides and the caller acts. Nothing here touches the file
//! system, the environment or a process: the caller reports what it found,
//! and gets back the new registry together with the link operations, or
//! the next action of a run, that it is to carry out.
//!
//! - [`config`] holds the registry: records, groups, and the mutations that
//!   register, remove, rename, enable, disable and switch.
//! - [`model`] is the registry as plain mathematics, the terms in which
//!   every contract is stated; [`theorems`] says what follows from them,
//!   and [`lemmas`] holds what the proofs rest on.
//! - [`links`] defines the link operations and a managed directory held in
//!   memory.
//! - [`listing`] lays the registry out for display.
//! - [`process`] takes a run from its start to its result, and [`memory`]
//!   reads the memory of the child out of its status text.
//! - [`commands`] and [`cli`] are the commands of the tool, [`shell`],
//!   [`paths`] and [`files`] what they need to know of shells, directories
//!   and executable files, [`text`] the work on strings, and [`error`] the
//!   failures.

pub mod cli;
pub mod commands;
pub mod config;
pub mod error;
pub mod files;
pub mod lemmas;
pub mod links;
pub mod listing;
pub mod memory;
pub mod model;
pub mod paths;
pub mod process;
pub mod shell;
pub mod text;
pub mod theorems;

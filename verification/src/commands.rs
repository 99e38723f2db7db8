//! What each command does, between reading the registry and writing it
//! back: the caller looks at the file system, hands over what it found, and
//! carries out what comes back.

use vstd::prelude::*;
use vstd::string::StringExecFns;
use crate::cli::{
    group_name, group_or_default, AddCommand, DisableCommand, EnableCommand, InfoCommand,
    InitCommand, ListCommand, RenameCommand, RmCommand, RunCommand, SearchCommand, SwitchCommand,
};
use crate::config::{hit_views, text_of, Bin, Config, Target};
use crate::error::{Error, ErrorView};
use crate::links::{apply_ops, op_views, LinkOp, LinkOpView};
use crate::listing::{lays_out, Listing};
use crate::model::{BinView, ConfigView};
use crate::process::arg_views;
use crate::text::{lowercase, str_eq, to_lowercase, trim, trimmed};

verus! {

/// What a run command resolved to: the program to start, the arguments to
/// start it with, and whether the program was named by its path or found
/// in the registry.
#[derive(Debug, PartialEq, Eq)]
pub struct Launch {
    pub program: String,
    pub args: Vec<String>,
    pub direct: bool,
}

/// A launch over plain sequences.
pub struct LaunchView {
    pub program: Seq<char>,
    pub args: Seq<Seq<char>>,
    pub direct: bool,
}

impl View for Launch {
    type V = LaunchView;

    open spec fn view(&self) -> LaunchView {
        LaunchView { program: self.program@, args: arg_views(self.args@), direct: self.direct }
    }
}

/// The program that the words of a run command name: the first word, which
/// must not be empty.
pub open spec fn named_program(args: Option<Vec<String>>) -> Option<Seq<char>> {
    match args {
        Some(words) => if words@.len() > 0 && words@[0]@.len() > 0 {
            Some(words@[0]@)
        } else {
            None
        },
        None => None,
    }
}

/// What a run command resolves to. A program named by an absolute path
/// that exists is started as it is, and the registry is not asked; any
/// other name, an absolute path that does not exist among them, is looked
/// up in the group, and the record's path is started, whether the record
/// is enabled or not. The words after the first are the program's
/// arguments.
pub open spec fn resolved(c: ConfigView, cmd: RunCommand, absolute: bool, exists: bool) -> Result<
    LaunchView,
    ErrorView,
> {
    match named_program(cmd.args) {
        None => Err(ErrorView::NoProgram),
        Some(program) => {
            let args = arg_views(cmd.args->0@.skip(1));
            let group = group_or_default(cmd.group);
            if absolute && exists {
                Ok(LaunchView { program, args, direct: true })
            } else if c.has_bin(group, program) {
                Ok(LaunchView { program: c.bin(group, program).path, args, direct: false })
            } else {
                Err(ErrorView::NotFound { group, name: Some(program) })
            }
        },
    }
}

/// The program that a run command names.
pub fn program(cmd: &RunCommand) -> (found: Result<&str, Error>)
    ensures
        match found {
            Ok(p) => named_program(cmd.args) == Some(p@),
            Err(e) => named_program(cmd.args) is None && e@ == ErrorView::NoProgram,
        },
{
    match &cmd.args {
        Some(words) => {
            if words.len() > 0 && !words[0].as_str().is_empty() {
                Ok(words[0].as_str())
            } else {
                Err(Error::NoProgram)
            }
        },
        None => Err(Error::NoProgram),
    }
}

/// Resolves a run command against the registry. `absolute` says whether
/// the program it names is an absolute path, `exists` whether there is
/// something at that path.
pub fn run(conf: &Config, cmd: &RunCommand, absolute: bool, exists: bool) -> (found: Result<
    Launch,
    Error,
>)
    requires
        conf.wf(),
    ensures
        match found {
            Ok(launch) => resolved(conf@, *cmd, absolute, exists) == Ok::<LaunchView, ErrorView>(
                launch@,
            ),
            Err(e) => resolved(conf@, *cmd, absolute, exists) == Err::<LaunchView, ErrorView>(e@),
        },
{
    let name = match program(cmd) {
        Ok(name) => name,
        Err(e) => {
            return Err(e);
        },
    };
    let words = match &cmd.args {
        Some(words) => words,
        None => {
            return Err(Error::NoProgram);
        },
    };
    let mut args: Vec<String> = Vec::new();
    let mut i: usize = 1;
    assert(arg_views(words@.skip(1)).take(0) =~= arg_views(args@));
    while i < words.len()
        invariant
            1 <= i <= words.len(),
            arg_views(args@) == arg_views(words@.skip(1)).take(i - 1),
        decreases words.len() - i,
    {
        let word = words[i].clone();
        proof {
            let all = arg_views(words@.skip(1));
            assert(all.take(i as int) =~= all.take(i - 1).push(all[i - 1]));
            assert(arg_views(args@.push(word)) =~= arg_views(args@).push(word@));
        }
        args.push(word);
        i += 1;
    }
    assert(arg_views(words@.skip(1)).take(words.len() - 1) =~= arg_views(words@.skip(1)));
    if absolute && exists {
        return Ok(Launch { program: name.to_owned(), args, direct: true });
    }
    let group = group_name(&cmd.group);
    match conf.find(group, name) {
        Some(bin) => Ok(Launch { program: bin.path.clone(), args, direct: false }),
        None => Err(Error::NotFound { group: group.to_owned(), name: Some(name.to_owned()) }),
    }
}

impl Launch {
    /// Lets a launch pass whose program is on disk, and refuses one whose
    /// program is gone: a record that was found, but whose path leads
    /// nowhere any more.
    pub fn confirm(self, exists: bool) -> (checked: Result<Launch, Error>)
        ensures
            match checked {
                Ok(launch) => exists && launch == self,
                Err(e) => !exists && e@ == (ErrorView::TargetMissing { path: self.program@ }),
            },
    {
        if exists {
            Ok(self)
        } else {
            Err(Error::TargetMissing { path: self.program })
        }
    }
}

/// A copy of an optional text.
fn copy_of(text: &Option<String>) -> (copy: Option<String>)
    ensures
        text_of(copy) == text_of(*text),
{
    match text {
        Some(t) => Some(t.clone()),
        None => None,
    }
}

/// Registers what was found at the path of an add command, in the group
/// that the command names or else in the default group. A command without
/// a path is refused.
pub fn add(conf: &mut Config, cmd: &AddCommand, target: &Target) -> (result: Result<
    Vec<LinkOp>,
    Error,
>)
    requires
        old(conf).wf(),
    ensures
        final(conf).wf(),
        match result {
            Ok(ops) => {
                &&& cmd.path@.len() > 0
                &&& target@.error(text_of(cmd.name)) is None
                &&& final(conf)@ == old(conf)@.added(
                    group_or_default(cmd.group),
                    target@,
                    text_of(cmd.name),
                )
                &&& op_views(ops@) == old(conf)@.add_ops(
                    group_or_default(cmd.group),
                    target@,
                    text_of(cmd.name),
                )
                &&& apply_ops(old(conf)@.projection(), op_views(ops@))
                    == final(conf)@.projection()
            },
            Err(e) => {
                &&& final(conf)@ == old(conf)@
                &&& Some(e@) == if cmd.path@.len() == 0 {
                    Some(ErrorView::NoPath)
                } else {
                    target@.error(text_of(cmd.name))
                }
            },
        },
{
    if cmd.path.as_str().is_empty() {
        return Err(Error::NoPath);
    }
    conf.add(group_name(&cmd.group), target, copy_of(&cmd.name))
}

/// Lays out what a list command asks for: every group, or the active group
/// alone.
pub fn list(conf: &Config, cmd: &ListCommand) -> (listings: Vec<Listing>)
    requires
        conf.wf(),
    ensures
        lays_out(
            conf@,
            if cmd.all {
                None
            } else {
                Some(conf@.active_group)
            },
            listings@,
        ),
{
    if cmd.all {
        conf.pretty_print(None)
    } else {
        conf.pretty_print(Some(conf.active_group()))
    }
}

/// What an init command is to do.
#[derive(Debug, Clone, Copy, PartialEq, Eq, Structural)]
pub enum InitPlan {
    /// Write a fresh configuration file.
    Create,
    /// Keep a copy of the configuration file that exists, then write a fresh
    /// one over it.
    BackUpAndCreate,
}

/// Decides what an init command is to do, given whether a configuration
/// file exists at `path`. One that exists is only overwritten when the
/// command forces it.
pub fn init(cmd: &InitCommand, exists: bool, path: &str) -> (plan: Result<InitPlan, Error>)
    ensures
        match plan {
            Ok(InitPlan::Create) => !exists,
            Ok(InitPlan::BackUpAndCreate) => exists && cmd.force,
            Err(e) => exists && !cmd.force && e@ == (ErrorView::AlreadyConfigured { path: path@ }),
        },
{
    if !exists {
        Ok(InitPlan::Create)
    } else if cmd.force {
        Ok(InitPlan::BackUpAndCreate)
    } else {
        Err(Error::AlreadyConfigured { path: path.to_owned() })
    }
}

/// How a registry is to be had.
#[derive(Debug, Clone, Copy, PartialEq, Eq, Structural)]
pub enum LoadPlan {
    /// Read the configuration file.
    Load,
    /// Write a fresh configuration file and go on with a fresh registry.
    CreateDefault,
}

/// Decides how the registry is to be had, given whether a configuration
/// file exists and whether a missing one may be created.
pub fn load_config(exists: bool, create: bool) -> (plan: Result<LoadPlan, Error>)
    ensures
        match plan {
            Ok(LoadPlan::Load) => exists,
            Ok(LoadPlan::CreateDefault) => !exists && create,
            Err(e) => !exists && !create && e@ == ErrorView::NotConfigured,
        },
{
    if exists {
        Ok(LoadPlan::Load)
    } else if create {
        Ok(LoadPlan::CreateDefault)
    } else {
        Err(Error::NotConfigured)
    }
}

/// The name that an rm command gives, as text.
pub open spec fn rm_name(cmd: RmCommand) -> Option<Seq<char>> {
    text_of(cmd.name)
}

/// The question that an rm command puts before it deletes.
pub open spec fn rm_question_text(cmd: RmCommand) -> Seq<char> {
    match cmd.name {
        Some(name) => "Are you sure you want to remove "@ + name@ + " from group "@
            + group_or_default(cmd.group) + "?"@,
        None => "Are you sure you want to remove all executables from group "@
            + group_or_default(cmd.group) + "?"@,
    }
}

/// The question to put to the user before an rm command is carried out:
/// none unless the command deletes. A group that is not registered is
/// refused before anything is asked.
pub fn rm_question(conf: &Config, cmd: &RmCommand) -> (question: Result<Option<String>, Error>)
    requires
        conf.wf(),
    ensures
        match question {
            Ok(Some(q)) => conf@.has_group(group_or_default(cmd.group)) && cmd.delete && q@
                == rm_question_text(*cmd),
            Ok(None) => conf@.has_group(group_or_default(cmd.group)) && !cmd.delete,
            Err(e) => !conf@.has_group(group_or_default(cmd.group)) && e@ == (ErrorView::NotFound {
                group: group_or_default(cmd.group),
                name: None,
            }),
        },
{
    let group = group_name(&cmd.group);
    if !conf.group_exists(group) {
        return Err(Error::NotFound { group: group.to_owned(), name: None });
    }
    if !cmd.delete {
        return Ok(None);
    }
    let mut text = match &cmd.name {
        Some(name) => {
            let mut text = String::from_str("Are you sure you want to remove ");
            text.append(name.as_str());
            text.append(" from group ");
            text
        },
        None => String::from_str("Are you sure you want to remove all executables from group "),
    };
    text.append(group);
    text.append("?");
    Ok(Some(text))
}

/// Carries out an rm command. A group that is not registered is refused;
/// a command that deletes does nothing unless the user agreed. With
/// `delete`, the group goes too where no name is given or where its last
/// record leaves.
pub fn rm(conf: &mut Config, cmd: &RmCommand, confirmed: bool) -> (result: Result<
    Vec<LinkOp>,
    Error,
>)
    requires
        old(conf).wf(),
    ensures
        final(conf).wf(),
        match result {
            Ok(ops) => {
                &&& old(conf)@.has_group(group_or_default(cmd.group))
                &&& final(conf)@ == if cmd.delete && !confirmed {
                    old(conf)@
                } else {
                    old(conf)@.removed(group_or_default(cmd.group), rm_name(*cmd), cmd.delete)
                }
                &&& op_views(ops@) == if cmd.delete && !confirmed {
                    Seq::<LinkOpView>::empty()
                } else {
                    old(conf)@.remove_ops(group_or_default(cmd.group), rm_name(*cmd), cmd.delete)
                }
                &&& apply_ops(old(conf)@.projection(), op_views(ops@))
                    == final(conf)@.projection()
            },
            Err(e) => {
                &&& !old(conf)@.has_group(group_or_default(cmd.group))
                &&& e@ == (ErrorView::NotFound { group: group_or_default(cmd.group), name: None })
                &&& final(conf)@ == old(conf)@
            },
        },
{
    let group = group_name(&cmd.group);
    if !conf.group_exists(group) {
        return Err(Error::NotFound { group: group.to_owned(), name: None });
    }
    if cmd.delete && !confirmed {
        let ops: Vec<LinkOp> = Vec::new();
        assert(op_views(ops@) =~= Seq::<LinkOpView>::empty());
        return Ok(ops);
    }
    let name: Option<&str> = match &cmd.name {
        Some(n) => Some(n.as_str()),
        None => None,
    };
    Ok(conf.remove(group, name, cmd.delete))
}

/// Makes the group that a switch command names, or else the default group,
/// the active one.
pub fn switch(conf: &mut Config, cmd: &SwitchCommand) -> (result: Result<Vec<LinkOp>, Error>)
    requires
        old(conf).wf(),
    ensures
        final(conf).wf(),
        match result {
            Ok(ops) => {
                &&& old(conf)@.switch_error(group_or_default(cmd.group)) is None
                &&& final(conf)@ == old(conf)@.switched(group_or_default(cmd.group))
                &&& op_views(ops@) == old(conf)@.switch_ops(group_or_default(cmd.group))
                &&& apply_ops(old(conf)@.projection(), op_views(ops@))
                    == final(conf)@.projection()
            },
            Err(e) => {
                &&& old(conf)@.switch_error(group_or_default(cmd.group)) == Some(e@)
                &&& final(conf)@ == old(conf)@
            },
        },
{
    conf.switch(group_name(&cmd.group))
}

/// Renames a record as a rename command asks.
pub fn rename(conf: &mut Config, cmd: &RenameCommand) -> (result: Result<Vec<LinkOp>, Error>)
    requires
        old(conf).wf(),
    ensures
        final(conf).wf(),
        match result {
            Ok(ops) => {
                &&& old(conf)@.rename_error(
                    group_or_default(cmd.group),
                    cmd.old_name@,
                    cmd.new_name@,
                ) is None
                &&& final(conf)@ == old(conf)@.renamed(
                    group_or_default(cmd.group),
                    cmd.old_name@,
                    cmd.new_name@,
                )
                &&& op_views(ops@) == old(conf)@.rename_ops(
                    group_or_default(cmd.group),
                    cmd.old_name@,
                    cmd.new_name@,
                )
                &&& apply_ops(old(conf)@.projection(), op_views(ops@))
                    == final(conf)@.projection()
            },
            Err(e) => {
                &&& old(conf)@.rename_error(
                    group_or_default(cmd.group),
                    cmd.old_name@,
                    cmd.new_name@,
                ) == Some(e@)
                &&& final(conf)@ == old(conf)@
            },
        },
{
    conf.rename(group_name(&cmd.group), cmd.old_name.as_str(), cmd.new_name.as_str())
}

/// Enables the record that an enable command names.
pub fn enable(conf: &mut Config, cmd: &EnableCommand) -> (result: Result<Vec<LinkOp>, Error>)
    requires
        old(conf).wf(),
    ensures
        final(conf).wf(),
        match result {
            Ok(ops) => {
                &&& old(conf)@.lookup_error(group_or_default(cmd.group), cmd.name@) is None
                &&& final(conf)@ == old(conf)@.with_enabled(
                    group_or_default(cmd.group),
                    cmd.name@,
                    true,
                )
                &&& op_views(ops@) == old(conf)@.enable_ops(
                    group_or_default(cmd.group),
                    cmd.name@,
                    true,
                )
                &&& apply_ops(old(conf)@.projection(), op_views(ops@))
                    == final(conf)@.projection()
            },
            Err(e) => {
                &&& old(conf)@.lookup_error(group_or_default(cmd.group), cmd.name@) == Some(e@)
                &&& final(conf)@ == old(conf)@
            },
        },
{
    conf.set_enabled(group_name(&cmd.group), cmd.name.as_str(), true)
}

/// Disables the record that a disable command names.
pub fn disable(conf: &mut Config, cmd: &DisableCommand) -> (result: Result<Vec<LinkOp>, Error>)
    requires
        old(conf).wf(),
    ensures
        final(conf).wf(),
        match result {
            Ok(ops) => {
                &&& old(conf)@.lookup_error(group_or_default(cmd.group), cmd.name@) is None
                &&& final(conf)@ == old(conf)@.with_enabled(
                    group_or_default(cmd.group),
                    cmd.name@,
                    false,
                )
                &&& op_views(ops@) == old(conf)@.enable_ops(
                    group_or_default(cmd.group),
                    cmd.name@,
                    false,
                )
                &&& apply_ops(old(conf)@.projection(), op_views(ops@))
                    == final(conf)@.projection()
            },
            Err(e) => {
                &&& old(conf)@.lookup_error(group_or_default(cmd.group), cmd.name@) == Some(e@)
                &&& final(conf)@ == old(conf)@
            },
        },
{
    conf.set_enabled(group_name(&cmd.group), cmd.name.as_str(), false)
}

/// What an info command shows of a record.
#[derive(Debug, PartialEq, Eq)]
pub struct Info {
    pub bin: Bin,
    /// The group that the record was looked up in.
    pub group: String,
    /// Whether that group is the active one.
    pub in_active_group: bool,
}

/// Looks up the record that an info command names.
pub fn info(conf: &Config, cmd: &InfoCommand) -> (found: Result<Info, Error>)
    requires
        conf.wf(),
    ensures
        match found {
            Ok(info) => {
                &&& conf@.lookup_error(group_or_default(cmd.group), cmd.name@) is None
                &&& info.bin@ == conf@.bin(group_or_default(cmd.group), cmd.name@)
                &&& info.group@ == group_or_default(cmd.group)
                &&& info.in_active_group == (conf@.active_group == group_or_default(cmd.group))
            },
            Err(e) => conf@.lookup_error(group_or_default(cmd.group), cmd.name@) == Some(e@),
        },
{
    let group = group_name(&cmd.group);
    match conf.get_bin_info(group, cmd.name.as_str()) {
        Ok(bin) => Ok(
            Info {
                bin: bin.clone(),
                group: group.to_owned(),
                in_active_group: str_eq(conf.active_group(), group),
            },
        ),
        Err(e) => Err(e),
    }
}

/// One record that a search found.
#[derive(Debug, PartialEq, Eq)]
pub struct Found {
    pub group: String,
    pub name: String,
    pub path: String,
    pub enabled: bool,
    /// Whether the record's group is the active one.
    pub active: bool,
}

/// A found record over plain sequences.
pub struct FoundView {
    pub group: Seq<char>,
    pub name: Seq<char>,
    pub path: Seq<char>,
    pub enabled: bool,
    pub active: bool,
}

impl View for Found {
    type V = FoundView;

    open spec fn view(&self) -> FoundView {
        FoundView {
            group: self.group@,
            name: self.name@,
            path: self.path@,
            enabled: self.enabled,
            active: self.active,
        }
    }
}

/// What a search shows of one hit.
pub open spec fn found_of(c: ConfigView, hit: (Seq<char>, Seq<char>, BinView)) -> FoundView {
    FoundView {
        group: hit.0,
        name: hit.1,
        path: hit.2.path,
        enabled: hit.2.enabled,
        active: c.active_group == hit.0,
    }
}

/// Finds the records that match the query of a search command, in the
/// order of the registry.
pub fn search(conf: &Config, cmd: &SearchCommand) -> (found: Vec<Found>)
    ensures
        found@.map_values(|f: Found| f@) == conf@.hits(cmd.query@).map_values(
            |h: (Seq<char>, Seq<char>, BinView)| found_of(conf@, h),
        ),
{
    let hits = conf.search(cmd.query.as_str());
    let ghost wanted = conf@.hits(cmd.query@).map_values(
        |h: (Seq<char>, Seq<char>, BinView)| found_of(conf@, h),
    );
    let mut found: Vec<Found> = Vec::new();
    let mut i: usize = 0;
    while i < hits.len()
        invariant
            i <= hits.len(),
            hit_views(hits@) == conf@.hits(cmd.query@),
            wanted == conf@.hits(cmd.query@).map_values(
                |h: (Seq<char>, Seq<char>, BinView)| found_of(conf@, h),
            ),
            found@.len() == i,
            forall|k: int| 0 <= k < i ==> found@[k]@ == wanted[k],
        decreases hits.len() - i,
    {
        let hit = &hits[i];
        assert(hit_views(hits@)[i as int] == (hit.0@, hit.1@, hit.2@));
        found.push(
            Found {
                group: hit.0.clone(),
                name: hit.1.clone(),
                path: hit.2.path.clone(),
                enabled: hit.2.enabled,
                active: str_eq(conf.active_group(), hit.0.as_str()),
            },
        );
        i += 1;
    }
    assert(found@.map_values(|f: Found| f@) =~= wanted);
    found
}

/// Whether an answer agrees: without the white space around it and in
/// lowercase, it is the letter `y`.
pub open spec fn agrees(answer: Seq<char>) -> bool {
    lowercase(trimmed(answer)) == "y"@
}

/// Whether an answer that was trimmed and put in lowercase already is the
/// letter `y`.
pub fn is_yes(answer: &str) -> (yes: bool)
    ensures
        yes == (answer@ == "y"@),
{
    str_eq(answer, "y")
}

/// Whether the user's answer to a question agrees. Anything but a `y`, in
/// either case and with or without white space around it, declines.
pub fn confirm(answer: &str) -> (yes: bool)
    ensures
        yes == agrees(answer@),
{
    let lower = to_lowercase(trim(answer));
    is_yes(lower.as_str())
}

} // verus!

//! The registry as plain mathematics: records, groups and the whole
//! registry as sequences and maps, and every mutation as a function from
//! the state before to the state after and the link operations it asks for.

use vstd::prelude::*;
use crate::error::ErrorView;
use crate::links::LinkOpView;
use crate::paths::same_path;
use crate::text::{lowercase, occurs_in};

verus! {

/// One registered executable.
pub struct BinView {
    pub name: Seq<char>,
    pub path: Seq<char>,
    pub source_dir: Option<Seq<char>>,
    pub enabled: bool,
}

impl BinView {
    /// The operation that puts this record's link in place: a link called
    /// like the record, pointing at the record's path.
    pub open spec fn link(self) -> LinkOpView {
        LinkOpView::Install { name: self.name, target: self.path }
    }

    /// The operations that installing this record asks for: its link for an
    /// enabled record, nothing for a disabled one.
    pub open spec fn install(self) -> Seq<LinkOpView> {
        if self.enabled {
            seq![self.link()]
        } else {
            Seq::empty()
        }
    }

    /// The operation that takes this record's link away.
    pub open spec fn uninstall(self) -> LinkOpView {
        LinkOpView::Uninstall { name: self.name }
    }

    /// Whether `query` occurs in the name or in the path, letter case aside.
    pub open spec fn matches(self, query: Seq<char>) -> bool {
        occurs_in(lowercase(query), lowercase(self.name)) || occurs_in(
            lowercase(query),
            lowercase(self.path),
        )
    }
}

/// No two records share a name.
pub open spec fn distinct_names(bins: Seq<BinView>) -> bool {
    forall|i: int, j: int| 0 <= i < j < bins.len() ==> bins[i].name != bins[j].name
}

/// Some record is called `name`.
pub open spec fn has_name(bins: Seq<BinView>, name: Seq<char>) -> bool {
    exists|i: int| 0 <= i < bins.len() && bins[i].name == name
}

/// The place of the record called `name`.
pub open spec fn place_of(bins: Seq<BinView>, name: Seq<char>) -> int {
    choose|i: int| 0 <= i < bins.len() && bins[i].name == name
}

/// `bins` with `bin` in the place of the record of the same name, or at the
/// end where there is none.
pub open spec fn put(bins: Seq<BinView>, bin: BinView) -> Seq<BinView> {
    if has_name(bins, bin.name) {
        bins.update(place_of(bins, bin.name), bin)
    } else {
        bins.push(bin)
    }
}

/// `bins` after putting each record of `more`, from first to last.
pub open spec fn put_all(bins: Seq<BinView>, more: Seq<BinView>) -> Seq<BinView>
    decreases more.len(),
{
    if more.len() == 0 {
        bins
    } else {
        put(put_all(bins, more.drop_last()), more.last())
    }
}

/// One uninstall per record, in order.
pub open spec fn uninstalls(bins: Seq<BinView>) -> Seq<LinkOpView> {
    bins.map_values(|b: BinView| b.uninstall())
}

/// The link of each record, in order.
pub open spec fn links(bins: Seq<BinView>) -> Seq<LinkOpView> {
    bins.map_values(|b: BinView| b.link())
}

/// The link of each enabled record, in order.
pub open spec fn installs(bins: Seq<BinView>) -> Seq<LinkOpView> {
    links(bins.filter(|b: BinView| b.enabled))
}

/// What the managed directory shows of a group that is active: the name of
/// each enabled record, mapped to the record's path.
pub open spec fn projection_of(bins: Seq<BinView>) -> Map<Seq<char>, Seq<char>> {
    Map::new(
        |name: Seq<char>| has_name(bins, name) && bins[place_of(bins, name)].enabled,
        |name: Seq<char>| bins[place_of(bins, name)].path,
    )
}

/// `dir` without the links that are called like a record of `bins`.
pub open spec fn without_names(dir: Map<Seq<char>, Seq<char>>, bins: Seq<BinView>) -> Map<
    Seq<char>,
    Seq<char>,
> {
    Map::new(|n: Seq<char>| dir.contains_key(n) && !has_name(bins, n), |n: Seq<char>| dir[n])
}

/// Whether a record was imported from the directory `dir`: its source is
/// the same path, whatever way it is written.
pub open spec fn tagged(bin: BinView, dir: Seq<char>) -> bool {
    bin.source_dir matches Some(source) && same_path(source, dir)
}

/// The records that were imported from the directory `dir`.
pub open spec fn from_source(bins: Seq<BinView>, dir: Seq<char>) -> Seq<BinView> {
    bins.filter(|b: BinView| tagged(b, dir))
}

/// The records that were not imported from the directory `dir`.
pub open spec fn not_from_source(bins: Seq<BinView>, dir: Seq<char>) -> Seq<BinView> {
    bins.filter(|b: BinView| !tagged(b, dir))
}

/// The records that `remove` takes out of a group, in order: with a name
/// that looks like a path, those that were imported from that directory;
/// with any other name, the record of that name; without a name, all of
/// them where `delete` is asked for and none where it is not.
pub open spec fn leaving(bins: Seq<BinView>, name: Option<Seq<char>>, delete: bool) -> Seq<
    BinView,
> {
    match name {
        Some(n) => if looks_like_path(n) {
            from_source(bins, n)
        } else if has_name(bins, n) {
            seq![bins[place_of(bins, n)]]
        } else {
            Seq::empty()
        },
        None => if delete {
            bins
        } else {
            Seq::empty()
        },
    }
}

/// The records that `remove` leaves in a group, in order.
pub open spec fn staying(bins: Seq<BinView>, name: Option<Seq<char>>, delete: bool) -> Seq<
    BinView,
> {
    match name {
        Some(n) => if looks_like_path(n) {
            not_from_source(bins, n)
        } else if has_name(bins, n) {
            bins.remove(place_of(bins, n))
        } else {
            bins
        },
        None => if delete {
            Seq::empty()
        } else {
            bins
        },
    }
}

/// Whether `remove` takes the group away too. It does where `delete` is
/// asked for and either no name is given, or the last record of the group
/// leaves.
pub open spec fn group_goes(bins: Seq<BinView>, name: Option<Seq<char>>, delete: bool) -> bool {
    delete && (name is None || (bins.len() > 0 && staying(bins, name, delete).len() == 0))
}

/// Whether a name given to `remove` is taken as a directory tag: it holds a
/// path separator.
pub open spec fn looks_like_path(name: Seq<char>) -> bool {
    name.contains('/') || name.contains('\\')
}

/// A group: its ordinal and its records.
pub struct GroupView {
    pub index: usize,
    pub bins: Seq<BinView>,
}

/// A group together with the name it is registered under.
pub struct NamedGroup {
    pub name: Seq<char>,
    pub group: GroupView,
}

/// Some group of `groups` is called `group`.
pub open spec fn has_group_named(groups: Seq<NamedGroup>, group: Seq<char>) -> bool {
    exists|i: int| 0 <= i < groups.len() && groups[i].name == group
}

/// The place of the group called `group`.
pub open spec fn place_of_group(groups: Seq<NamedGroup>, group: Seq<char>) -> int {
    choose|i: int| 0 <= i < groups.len() && groups[i].name == group
}

/// One entry of a directory that is to be imported: its file name, where it
/// can be written as text, and its canonical path.
pub struct EntryView {
    pub name: Option<Seq<char>>,
    pub path: Seq<char>,
}

/// The stem of a file name, as the path that was given has it.
pub enum StemView {
    /// The stem, as text.
    Text(Seq<char>),
    /// The path has no file name to take a stem from.
    Missing,
    /// The file name cannot be written as text.
    NotText,
}

/// What stands at a path that is to be registered.
pub enum TargetView {
    /// An executable file: its canonical path and, where it has one, the
    /// stem of its file name.
    File { path: Seq<char>, stem: StemView },
    /// A directory: its canonical path and its executable files.
    Directory { path: Seq<char>, entries: Seq<EntryView> },
    /// Anything else.
    Other,
}

impl TargetView {
    /// Why the target cannot be registered under the alias `name`, if it
    /// cannot.
    pub open spec fn error(self, name: Option<Seq<char>>) -> Option<ErrorView> {
        match self {
            TargetView::File { path, stem } => if name is Some {
                None
            } else {
                match stem {
                    StemView::Text(_) => None,
                    StemView::Missing => Some(ErrorView::InvalidPathKind),
                    StemView::NotText => Some(ErrorView::NonUtf8Name),
                }
            },
            TargetView::Directory { path, entries } => if exists|i: int|
                0 <= i < entries.len() && entries[i].name is None {
                Some(ErrorView::NonUtf8Name)
            } else {
                None
            },
            TargetView::Other => Some(ErrorView::InvalidPathKind),
        }
    }

    /// The records that registering the target creates, in order. A file
    /// gives one record, called `name` or else by its stem; a directory
    /// gives one record per entry, called by the entry's file name and
    /// tagged with the directory.
    pub open spec fn records(self, name: Option<Seq<char>>) -> Seq<BinView> {
        match self {
            TargetView::File { path, stem } => seq![
                BinView {
                    name: if name is Some { name->0 } else { stem->Text_0 },
                    path,
                    source_dir: None,
                    enabled: true,
                },
            ],
            TargetView::Directory { path, entries } => entries.map_values(
                |e: EntryView|
                    BinView {
                        name: e.name->0,
                        path: e.path,
                        source_dir: Some(path),
                        enabled: true,
                    },
            ),
            TargetView::Other => Seq::empty(),
        }
    }

    /// The ordinal of a group that held `before` records when the target was
    /// registered and holds `after` records now.
    pub open spec fn ordinal(self, before: nat, after: nat) -> nat {
        let count = if self is Directory { before } else { after };
        if count == 0 { 0 } else { (count - 1) as nat }
    }
}

/// The records of one group that match `query`, each with the name of the
/// group and its own name, in the order of the records.
pub open spec fn group_hits(group: NamedGroup, query: Seq<char>) -> Seq<
    (Seq<char>, Seq<char>, BinView),
> {
    group.group.bins.filter(|b: BinView| b.matches(query)).map_values(
        |b: BinView| (group.name, b.name, b),
    )
}

/// The whole registry.
pub struct ConfigView {
    pub active_group: Seq<char>,
    pub bin_dir: Seq<char>,
    pub groups: Seq<NamedGroup>,
}

/// A record as it is kept on disk. The flag may be missing, as it is in
/// files that were written before records could be disabled.
pub struct StoredBinView {
    pub name: Seq<char>,
    pub path: Seq<char>,
    pub source_dir: Option<Seq<char>>,
    pub enabled: Option<bool>,
}

/// A group as it is kept on disk: its ordinal and its records, each filed
/// under an alias.
pub struct StoredGroupView {
    pub index: usize,
    pub bins: Seq<(Seq<char>, StoredBinView)>,
}

/// The registry as it is kept on disk: the active group, the managed
/// directory and the groups, each filed under its name.
pub struct StoredConfigView {
    pub active_group: Seq<char>,
    pub bin_dir: Seq<char>,
    pub groups: Seq<(Seq<char>, StoredGroupView)>,
}

/// The record that an entry of a stored group stands for: it goes by the
/// alias it is filed under, and it is enabled unless its flag says no.
pub open spec fn filed(entry: (Seq<char>, StoredBinView)) -> BinView {
    BinView {
        name: entry.0,
        path: entry.1.path,
        source_dir: entry.1.source_dir,
        enabled: match entry.1.enabled {
            Some(flag) => flag,
            None => true,
        },
    }
}

impl StoredGroupView {
    /// The group that is restored from the stored one: its records are put
    /// one after the other, so that of two records filed under one alias
    /// the later stays.
    pub open spec fn restored(self) -> GroupView {
        GroupView {
            index: self.index,
            bins: put_all(
                Seq::empty(),
                self.bins.map_values(|e: (Seq<char>, StoredBinView)| filed(e)),
            ),
        }
    }
}

impl StoredConfigView {
    /// The registry that is restored from the first `count` stored groups,
    /// registered one after the other.
    pub open spec fn restored_upto(self, count: int) -> ConfigView
        decreases count,
    {
        if count <= 0 {
            ConfigView {
                active_group: self.active_group,
                bin_dir: self.bin_dir,
                groups: Seq::empty(),
            }
        } else {
            self.restored_upto(count - 1).with_group(
                self.groups[count - 1].0,
                self.groups[count - 1].1.restored(),
            )
        }
    }

    /// The registry that is restored from the stored one.
    pub open spec fn restored(self) -> ConfigView {
        self.restored_upto(self.groups.len() as int)
    }
}

impl BinView {
    /// The record as it is kept on disk, with its flag written out.
    pub open spec fn stored(self) -> StoredBinView {
        StoredBinView {
            name: self.name,
            path: self.path,
            source_dir: self.source_dir,
            enabled: Some(self.enabled),
        }
    }
}

impl GroupView {
    /// The group as it is kept on disk: each record filed under its name.
    pub open spec fn stored(self) -> StoredGroupView {
        StoredGroupView {
            index: self.index,
            bins: self.bins.map_values(|b: BinView| (b.name, b.stored())),
        }
    }
}

/// One mutation of the registry.
pub enum Step {
    Add { group: Seq<char>, target: TargetView, alias: Option<Seq<char>> },
    Remove { group: Seq<char>, which: Option<Seq<char>>, delete: bool },
    Rename { group: Seq<char>, old_name: Seq<char>, new_name: Seq<char> },
    SetEnabled { group: Seq<char>, name: Seq<char>, enabled: bool },
    Switch { to: Seq<char> },
}

impl ConfigView {
    /// No two groups share a name, and within a group no two records do.
    pub open spec fn wf(self) -> bool {
        &&& forall|i: int, j: int|
            0 <= i < j < self.groups.len() ==> self.groups[i].name != self.groups[j].name
        &&& forall|i: int|
            0 <= i < self.groups.len() ==> distinct_names(#[trigger] self.groups[i].group.bins)
    }

    /// A group called `group` is registered.
    pub open spec fn has_group(self, group: Seq<char>) -> bool {
        has_group_named(self.groups, group)
    }

    /// The place of the group called `group`.
    pub open spec fn group_place(self, group: Seq<char>) -> int {
        place_of_group(self.groups, group)
    }

    /// The group called `group`; a group without records where none is
    /// registered.
    pub open spec fn group_of(self, group: Seq<char>) -> GroupView {
        if self.has_group(group) {
            self.groups[self.group_place(group)].group
        } else {
            GroupView { index: 0, bins: Seq::empty() }
        }
    }

    /// The records of the group called `group`.
    pub open spec fn bins_of(self, group: Seq<char>) -> Seq<BinView> {
        self.group_of(group).bins
    }

    /// The group called `group` holds a record called `name`.
    pub open spec fn has_bin(self, group: Seq<char>, name: Seq<char>) -> bool {
        has_name(self.bins_of(group), name)
    }

    /// The record called `name` of the group called `group`.
    pub open spec fn bin(self, group: Seq<char>, name: Seq<char>) -> BinView {
        self.bins_of(group)[place_of(self.bins_of(group), name)]
    }

    /// What the managed directory is to show: one link per enabled record
    /// of the active group, from the record's name to its path.
    pub open spec fn projection(self) -> Map<Seq<char>, Seq<char>> {
        projection_of(self.bins_of(self.active_group))
    }

    /// The registry with `group` registered as `name`, in the place of the
    /// group of that name or at the end where there is none.
    pub open spec fn with_group(self, name: Seq<char>, group: GroupView) -> ConfigView {
        ConfigView {
            groups: if self.has_group(name) {
                self.groups.update(self.group_place(name), NamedGroup { name, group })
            } else {
                self.groups.push(NamedGroup { name, group })
            },
            ..self
        }
    }

    /// The registry with `bins` as the records of the group called `group`.
    pub open spec fn with_bins(self, group: Seq<char>, bins: Seq<BinView>) -> ConfigView {
        self.with_group(group, GroupView { bins, ..self.group_of(group) })
    }

    /// Why nothing is found under `group` and `name`, if nothing is.
    pub open spec fn lookup_error(self, group: Seq<char>, name: Seq<char>) -> Option<ErrorView> {
        if !self.has_group(group) {
            Some(ErrorView::NotFound { group, name: None })
        } else if !self.has_bin(group, name) {
            Some(ErrorView::NotFound { group, name: Some(name) })
        } else {
            None
        }
    }

    /// The registry after `target` was registered in `group` under the alias
    /// `name`.
    pub open spec fn added(
        self,
        group: Seq<char>,
        target: TargetView,
        name: Option<Seq<char>>,
    ) -> ConfigView {
        let before = self.bins_of(group);
        let bins = put_all(before, target.records(name));
        self.with_group(
            group,
            GroupView { index: target.ordinal(before.len(), bins.len()) as usize, bins },
        )
    }

    /// The link operations that registering `target` asks for: the link of
    /// each new record where the group is active, none where it is not.
    pub open spec fn add_ops(
        self,
        group: Seq<char>,
        target: TargetView,
        name: Option<Seq<char>>,
    ) -> Seq<LinkOpView> {
        if self.active_group == group {
            links(target.records(name))
        } else {
            Seq::empty()
        }
    }

    /// The registry after `remove`: the records that leave are gone from
    /// the group, and the group is gone with them where that was asked for.
    /// A group that is not registered leaves the registry as it is.
    pub open spec fn removed(
        self,
        group: Seq<char>,
        name: Option<Seq<char>>,
        delete: bool,
    ) -> ConfigView {
        let bins = self.bins_of(group);
        if !self.has_group(group) {
            self
        } else if group_goes(bins, name, delete) {
            ConfigView { groups: self.groups.remove(self.group_place(group)), ..self }
        } else {
            self.with_bins(group, staying(bins, name, delete))
        }
    }

    /// The link operations that `remove` asks for: in the active group one
    /// uninstall per record that leaves; in any other group none.
    pub open spec fn remove_ops(
        self,
        group: Seq<char>,
        name: Option<Seq<char>>,
        delete: bool,
    ) -> Seq<LinkOpView> {
        if self.active_group == group {
            uninstalls(leaving(self.bins_of(group), name, delete))
        } else {
            Seq::empty()
        }
    }

    /// Why a record cannot be renamed, if it cannot: the group or the
    /// record is not found, or the group holds the new name already, be it
    /// as the name of the record itself.
    pub open spec fn rename_error(
        self,
        group: Seq<char>,
        old_name: Seq<char>,
        new_name: Seq<char>,
    ) -> Option<ErrorView> {
        if self.lookup_error(group, old_name) is Some {
            self.lookup_error(group, old_name)
        } else if self.has_bin(group, new_name) {
            Some(ErrorView::NameCollision { group, name: new_name })
        } else {
            None
        }
    }

    /// The registry after the record `old_name` of `group` was renamed: the
    /// record keeps its place, path, source and flag.
    pub open spec fn renamed(
        self,
        group: Seq<char>,
        old_name: Seq<char>,
        new_name: Seq<char>,
    ) -> ConfigView {
        let bins = self.bins_of(group);
        let at = place_of(bins, old_name);
        self.with_bins(group, bins.update(at, BinView { name: new_name, ..bins[at] }))
    }

    /// The link operations that a rename asks for: in the active group the
    /// old link goes and, for an enabled record, the new one comes.
    pub open spec fn rename_ops(
        self,
        group: Seq<char>,
        old_name: Seq<char>,
        new_name: Seq<char>,
    ) -> Seq<LinkOpView> {
        if self.active_group == group {
            seq![LinkOpView::Uninstall { name: old_name }] + BinView {
                name: new_name,
                ..self.bin(group, old_name)
            }.install()
        } else {
            Seq::empty()
        }
    }

    /// The registry after the flag of a record was set.
    pub open spec fn with_enabled(
        self,
        group: Seq<char>,
        name: Seq<char>,
        enabled: bool,
    ) -> ConfigView {
        let bins = self.bins_of(group);
        let at = place_of(bins, name);
        self.with_bins(group, bins.update(at, BinView { enabled, ..bins[at] }))
    }

    /// The link operation that setting a flag asks for: none unless the
    /// group is active and the flag changes.
    pub open spec fn enable_ops(
        self,
        group: Seq<char>,
        name: Seq<char>,
        enabled: bool,
    ) -> Seq<LinkOpView> {
        let bin = self.bin(group, name);
        if self.active_group != group || bin.enabled == enabled {
            Seq::empty()
        } else if enabled {
            seq![bin.link()]
        } else {
            seq![bin.uninstall()]
        }
    }

    /// Why `target` cannot become the active group, if it cannot.
    pub open spec fn switch_error(self, target: Seq<char>) -> Option<ErrorView> {
        if target != self.active_group && !self.has_group(target) {
            Some(ErrorView::NotFound { group: target, name: None })
        } else {
            None
        }
    }

    /// The registry with `target` as the active group.
    pub open spec fn switched(self, target: Seq<char>) -> ConfigView {
        ConfigView { active_group: target, ..self }
    }

    /// The link operations that a switch asks for: every record of the
    /// group that was active is uninstalled, then every enabled record of
    /// the new one is installed.
    pub open spec fn switch_ops(self, target: Seq<char>) -> Seq<LinkOpView> {
        if target == self.active_group {
            Seq::empty()
        } else {
            uninstalls(self.bins_of(self.active_group)) + installs(self.bins_of(target))
        }
    }

    /// The registry as it is kept on disk: each group filed under its name.
    pub open spec fn stored(self) -> StoredConfigView {
        StoredConfigView {
            active_group: self.active_group,
            bin_dir: self.bin_dir,
            groups: self.groups.map_values(|g: NamedGroup| (g.name, g.group.stored())),
        }
    }

    /// The records of all groups that match `query`, group after group.
    pub open spec fn hits(self, query: Seq<char>) -> Seq<(Seq<char>, Seq<char>, BinView)> {
        self.groups.flat_map(|g: NamedGroup| group_hits(g, query))
    }

    /// Why `step` is refused, if it is.
    pub open spec fn step_error(self, step: Step) -> Option<ErrorView> {
        match step {
            Step::Add { group, target, alias } => target.error(alias),
            Step::Remove { group, which, delete } => None,
            Step::Rename { group, old_name, new_name } => self.rename_error(
                group,
                old_name,
                new_name,
            ),
            Step::SetEnabled { group, name, enabled } => self.lookup_error(group, name),
            Step::Switch { to } => self.switch_error(to),
        }
    }

    /// The registry after `step`: unchanged where the step is refused.
    pub open spec fn after(self, step: Step) -> ConfigView {
        if self.step_error(step) is Some {
            self
        } else {
            match step {
                Step::Add { group, target, alias } => self.added(group, target, alias),
                Step::Remove { group, which, delete } => self.removed(group, which, delete),
                Step::Rename { group, old_name, new_name } => self.renamed(
                    group,
                    old_name,
                    new_name,
                ),
                Step::SetEnabled { group, name, enabled } => self.with_enabled(
                    group,
                    name,
                    enabled,
                ),
                Step::Switch { to } => self.switched(to),
            }
        }
    }

    /// The link operations that `step` asks for: none where it is refused.
    pub open spec fn ops_of(self, step: Step) -> Seq<LinkOpView> {
        if self.step_error(step) is Some {
            Seq::empty()
        } else {
            match step {
                Step::Add { group, target, alias } => self.add_ops(group, target, alias),
                Step::Remove { group, which, delete } => self.remove_ops(group, which, delete),
                Step::Rename { group, old_name, new_name } => self.rename_ops(
                    group,
                    old_name,
                    new_name,
                ),
                Step::SetEnabled { group, name, enabled } => self.enable_ops(group, name, enabled),
                Step::Switch { to } => self.switch_ops(to),
            }
        }
    }

    /// The registry after all of `steps`, from first to last.
    pub open spec fn after_all(self, steps: Seq<Step>) -> ConfigView
        decreases steps.len(),
    {
        if steps.len() == 0 {
            self
        } else {
            self.after_all(steps.drop_last()).after(steps.last())
        }
    }

    /// The link operations that `steps` ask for, one step after the other.
    pub open spec fn ops_of_all(self, steps: Seq<Step>) -> Seq<LinkOpView>
        decreases steps.len(),
    {
        if steps.len() == 0 {
            Seq::empty()
        } else {
            self.ops_of_all(steps.drop_last()) + self.after_all(steps.drop_last()).ops_of(
                steps.last(),
            )
        }
    }
}

} // verus!

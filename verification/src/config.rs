//! The registry: executables registered under aliases, kept in named
//! groups, one of which is active.
//!
//! Every mutation returns the link operations that it asks for. Carried out
//! in order on a managed directory that showed the active group before, they
//! leave it showing the active group after.

use vstd::prelude::*;
use crate::error::{Error, ErrorView};
use crate::lemmas::{
    lemma_bins_distinct, lemma_filter_names, lemma_group_hits_push, lemma_group_place,
    lemma_installs_push, lemma_leaving_nothing, lemma_place_of, lemma_put, lemma_remove,
    lemma_uninstalls_push, lemma_with_group,
};
use crate::links::{apply_ops, op_views, LinkOp, LinkOpView};
use crate::model::{
    distinct_names, filed, from_source, group_goes, group_hits, has_name, installs, leaving,
    links, not_from_source, place_of, put, put_all, staying, tagged, uninstalls, BinView,
    ConfigView, EntryView, GroupView, NamedGroup, StemView, StoredBinView, StoredConfigView,
    StoredGroupView, TargetView,
};
use crate::paths::{components, path_components, same_components};
use crate::text::{
    contains, has_char, line_views, occurs_in, str_eq, to_lowercase,
};
use crate::theorems::{
    add_keeps_links, remove_keeps_links, rename_keeps_links, restored_is_what_was_stored,
    set_enabled_keeps_links, switch_keeps_links,
};

verus! {

/// The group that is active in a fresh registry, and the one that commands
/// fall back to when none is named.
pub const GLOBAL_DEFAULT_GROUP_NAME: &'static str = "base";

/// One registered executable.
#[derive(Debug, PartialEq, Eq)]
pub struct Bin {
    /// The alias; it is also the name of the link.
    pub name: String,
    /// The canonical path of the executable.
    pub path: String,
    /// The directory that the record was imported from, if it was.
    pub source_dir: Option<String>,
    /// Disabled records stay registered and are never installed.
    pub enabled: bool,
}

impl View for Bin {
    type V = BinView;

    open spec fn view(&self) -> BinView {
        BinView {
            name: self.name@,
            path: self.path@,
            source_dir: match self.source_dir {
                Some(dir) => Some(dir@),
                None => None,
            },
            enabled: self.enabled,
        }
    }
}

impl Clone for Bin {
    fn clone(&self) -> (copy: Self)
        ensures
            copy == *self,
    {
        Bin {
            name: self.name.clone(),
            path: self.path.clone(),
            source_dir: match &self.source_dir {
                Some(dir) => Some(dir.clone()),
                None => None,
            },
            enabled: self.enabled,
        }
    }
}

/// The records of `bins`, each by its view.
pub open spec fn bin_views(bins: Seq<Bin>) -> Seq<BinView> {
    bins.map_values(|b: Bin| b@)
}

impl Bin {
    /// The operations that put the record's link in place: one install for
    /// an enabled record, nothing for a disabled one.
    pub fn install(&self) -> (ops: Vec<LinkOp>)
        ensures
            op_views(ops@) == self@.install(),
    {
        let mut ops: Vec<LinkOp> = Vec::new();
        if self.enabled {
            ops.push(LinkOp::Install { name: self.name.clone(), target: self.path.clone() });
        }
        assert(op_views(ops@) =~= self@.install());
        ops
    }

    /// The operation that takes the record's link away.
    pub fn uninstall(&self) -> (op: LinkOp)
        ensures
            op@ == self@.uninstall(),
    {
        LinkOp::Uninstall { name: self.name.clone() }
    }
}

/// One entry of a directory that is to be imported.
#[derive(Debug)]
pub struct Entry {
    /// The file name, where it can be written as text.
    pub name: Option<String>,
    /// The canonical path of the file.
    pub path: String,
}

/// The stem of a file name, as the path that was given has it.
#[derive(Debug)]
pub enum Stem {
    /// The stem, as text.
    Text(String),
    /// The path has no file name to take a stem from.
    Missing,
    /// The file name cannot be written as text.
    NotText,
}

impl View for Stem {
    type V = StemView;

    open spec fn view(&self) -> StemView {
        match *self {
            Stem::Text(text) => StemView::Text(text@),
            Stem::Missing => StemView::Missing,
            Stem::NotText => StemView::NotText,
        }
    }
}

/// What stands at a path that is to be registered. The caller looks at the
/// file system and reports what it found.
#[derive(Debug)]
pub enum Target {
    /// An executable file: its canonical path and, where the path that was
    /// stem of the file name of the path that was given.
    File { path: String, stem: Stem },
    /// A directory: its canonical path and the executable files directly in
    /// it.
    Directory { path: String, entries: Vec<Entry> },
    /// Neither an executable file nor a directory.
    Other,
}

/// The text of an optional string.
pub open spec fn text_of(s: Option<String>) -> Option<Seq<char>> {
    match s {
        Some(s) => Some(s@),
        None => None,
    }
}

impl View for Entry {
    type V = EntryView;

    open spec fn view(&self) -> EntryView {
        EntryView { name: text_of(self.name), path: self.path@ }
    }
}

impl View for Target {
    type V = TargetView;

    open spec fn view(&self) -> TargetView {
        match *self {
            Target::File { path, stem } => TargetView::File { path: path@, stem: stem@ },
            Target::Directory { path, entries } => TargetView::Directory {
                path: path@,
                entries: entries@.map_values(|e: Entry| e@),
            },
            Target::Other => TargetView::Other,
        }
    }
}

impl Target {
    /// The records that registering the target under the alias `name`
    /// creates, or the reason why it cannot be registered.
    pub fn records(&self, name: Option<String>) -> (result: Result<Vec<Bin>, Error>)
        ensures
            match result {
                Ok(bins) => self@.error(text_of(name)) is None && bin_views(bins@)
                    == self@.records(text_of(name)),
                Err(e) => self@.error(text_of(name)) == Some(e@),
            },
    {
        match self {
            Target::Other => Err(Error::InvalidPathKind),
            Target::File { path, stem } => {
                let alias = match name {
                    Some(n) => n,
                    None => match stem {
                        Stem::Text(s) => s.clone(),
                        Stem::Missing => {
                            return Err(Error::InvalidPathKind);
                        },
                        Stem::NotText => {
                            return Err(Error::NonUtf8Name);
                        },
                    },
                };
                let mut bins: Vec<Bin> = Vec::new();
                bins.push(Bin { name: alias, path: path.clone(), source_dir: None, enabled: true });
                assert(bin_views(bins@) =~= self@.records(text_of(name)));
                Ok(bins)
            },
            Target::Directory { path, entries } => {
                let ghost views = entries@.map_values(|e: Entry| e@);
                let ghost record = |e: EntryView|
                    BinView {
                        name: e.name->0,
                        path: e.path,
                        source_dir: Some(path@),
                        enabled: true,
                    };
                let mut bins: Vec<Bin> = Vec::new();
                let mut i: usize = 0;
                while i < entries.len()
                    invariant
                        i <= entries.len(),
                        views == entries@.map_values(|e: Entry| e@),
                        record == (|e: EntryView|
                            BinView {
                                name: e.name->0,
                                path: e.path,
                                source_dir: Some(path@),
                                enabled: true,
                            }),
                        self@ == (TargetView::Directory { path: path@, entries: views }),
                        forall|k: int| 0 <= k < i ==> views[k].name is Some,
                        bin_views(bins@) =~= views.take(i as int).map_values(record),
                    decreases entries.len() - i,
                {
                    let entry = &entries[i];
                    let alias = match &entry.name {
                        Some(n) => n.clone(),
                        None => {
                            assert(0 <= i < views.len() && views[i as int].name is None);
                            assert(self@.error(text_of(name)) == Some(ErrorView::NonUtf8Name));
                            return Err(Error::NonUtf8Name);
                        },
                    };
                    let bin = Bin {
                        name: alias,
                        path: entry.path.clone(),
                        source_dir: Some(path.clone()),
                        enabled: true,
                    };
                    proof {
                        assert(bin@ == record(views[i as int]));
                        assert(views.take(i + 1) =~= views.take(i as int).push(views[i as int]));
                        assert(bin_views(bins@.push(bin)) =~= bin_views(bins@).push(bin@));
                    }
                    bins.push(bin);
                    i += 1;
                }
                assert(views.take(entries.len() as int) =~= views);
                Ok(bins)
            },
        }
    }
}

/// A group of records, no two of them with the same name.
#[derive(Debug)]
pub struct Group {
    index: usize,
    bins: Vec<Bin>,
}

impl View for Group {
    type V = GroupView;

    closed spec fn view(&self) -> GroupView {
        GroupView { index: self.index, bins: bin_views(self.bins@) }
    }
}

impl Group {
    /// No two records share a name.
    pub open spec fn wf(&self) -> bool {
        distinct_names(self@.bins)
    }

    /// A group without records, with the ordinal `index`.
    pub fn new(index: usize) -> (group: Group)
        ensures
            group.wf(),
            group@ == (GroupView { index, bins: Seq::empty() }),
    {
        let group = Group { index, bins: Vec::new() };
        assert(group@.bins =~= Seq::empty());
        group
    }

    /// The ordinal of the group.
    pub fn index(&self) -> (index: usize)
        ensures
            index == self@.index,
    {
        self.index
    }

    /// The records of the group, in the order in which they are listed.
    pub fn bins(&self) -> (bins: &Vec<Bin>)
        ensures
            bin_views(bins@) == self@.bins,
    {
        &self.bins
    }

    /// The place of the record called `name`, if there is one.
    fn place(&self, name: &str) -> (at: Option<usize>)
        requires
            self.wf(),
        ensures
            match at {
                Some(i) => i < self.bins.len() && has_name(self@.bins, name@) && place_of(
                    self@.bins,
                    name@,
                ) == i,
                None => !has_name(self@.bins, name@),
            },
    {
        let mut i: usize = 0;
        while i < self.bins.len()
            invariant
                i <= self.bins.len(),
                self.wf(),
                forall|k: int| 0 <= k < i ==> self@.bins[k].name != name@,
            decreases self.bins.len() - i,
        {
            if str_eq(self.bins[i].name.as_str(), name) {
                proof {
                    assert(self@.bins[i as int].name == name@);
                    lemma_place_of(self@.bins, i as int);
                }
                return Some(i);
            }
            i += 1;
        }
        None
    }

    /// The record called `name`, if the group holds one.
    pub fn get(&self, name: &str) -> (found: Option<&Bin>)
        requires
            self.wf(),
        ensures
            match found {
                Some(bin) => has_name(self@.bins, name@) && bin@ == self@.bins[place_of(
                    self@.bins,
                    name@,
                )],
                None => !has_name(self@.bins, name@),
            },
    {
        match self.place(name) {
            Some(i) => Some(&self.bins[i]),
            None => None,
        }
    }

    /// Puts `bin` into the group, in the place of the record of the same
    /// name or at the end where there is none. This builds a group up, as
    /// when a saved registry is restored; no link operation comes of it.
    pub fn insert(&mut self, bin: Bin)
        requires
            old(self).wf(),
        ensures
            final(self).wf(),
            final(self)@ == (GroupView { bins: put(old(self)@.bins, bin@), ..old(self)@ }),
    {
        proof {
            lemma_put(self@.bins, bin@);
        }
        match self.place(bin.name.as_str()) {
            Some(i) => {
                self.bins[i] = bin;
            },
            None => {
                self.bins.push(bin);
            },
        }
        assert(self@.bins =~= put(old(self)@.bins, bin@));
    }

    /// The group that a stored group stands for. Each record goes by the
    /// alias it is filed under; of two records under one alias the later
    /// stays.
    pub fn load(stored: &StoredGroup) -> (group: Group)
        ensures
            group.wf(),
            group@ == stored@.restored(),
    {
        let ghost entries = stored@.bins;
        let ghost records = entries.map_values(|e: (Seq<char>, StoredBinView)| filed(e));
        let mut group = Group::new(stored.index);
        let mut i: usize = 0;
        assert(records.take(0) =~= Seq::<BinView>::empty());
        while i < stored.bins.len()
            invariant
                i <= stored.bins.len(),
                entries == stored@.bins,
                records == entries.map_values(|e: (Seq<char>, StoredBinView)| filed(e)),
                group.wf(),
                group@.index == stored.index,
                group@.bins == put_all(Seq::empty(), records.take(i as int)),
            decreases stored.bins.len() - i,
        {
            let entry = &stored.bins[i];
            let bin = Bin {
                name: entry.0.clone(),
                path: entry.1.path.clone(),
                source_dir: match &entry.1.source_dir {
                    Some(dir) => Some(dir.clone()),
                    None => None,
                },
                enabled: match entry.1.enabled {
                    Some(flag) => flag,
                    None => true,
                },
            };
            proof {
                assert(entries[i as int] == (entry.0@, entry.1@));
                assert(bin@ == records[i as int]);
                assert(records.take(i + 1).drop_last() =~= records.take(i as int));
            }
            group.insert(bin);
            i += 1;
        }
        assert(records.take(stored.bins.len() as int) =~= records);
        group
    }

    /// The group as it is kept on disk: each record filed under its name.
    pub fn save(&self) -> (stored: StoredGroup)
        ensures
            stored@ == self@.stored(),
    {
        let mut bins: Vec<(String, StoredBin)> = Vec::new();
        let mut i: usize = 0;
        while i < self.bins.len()
            invariant
                i <= self.bins.len(),
                bins@.len() == i,
                forall|k: int|
                    0 <= k < i ==> bins@[k].0@ == self@.bins[k].name && bins@[k].1@
                        == self@.bins[k].stored(),
            decreases self.bins.len() - i,
        {
            let bin = &self.bins[i];
            let stored = StoredBin {
                name: bin.name.clone(),
                path: bin.path.clone(),
                source_dir: match &bin.source_dir {
                    Some(dir) => Some(dir.clone()),
                    None => None,
                },
                enabled: Some(bin.enabled),
            };
            bins.push((bin.name.clone(), stored));
            i += 1;
        }
        let stored = StoredGroup { index: self.index, bins };
        assert(stored@.bins =~= self@.stored().bins);
        stored
    }

    /// Takes the record called `name` out of the group, if there is one,
    /// and returns the uninstall of its link. The uninstall is for a group
    /// whose links are in place: the registry carries it out for the active
    /// group only.
    pub fn remove_bin_by_name(&mut self, name: &str) -> (ops: Vec<LinkOp>)
        requires
            old(self).wf(),
        ensures
            final(self).wf(),
            final(self)@.index == old(self)@.index,
            final(self)@.bins == if has_name(old(self)@.bins, name@) {
                old(self)@.bins.remove(place_of(old(self)@.bins, name@))
            } else {
                old(self)@.bins
            },
            op_views(ops@) == if has_name(old(self)@.bins, name@) {
                seq![LinkOpView::Uninstall { name: name@ }]
            } else {
                Seq::empty()
            },
    {
        let mut ops: Vec<LinkOp> = Vec::new();
        match self.place(name) {
            Some(i) => {
                proof {
                    lemma_remove(self@.bins, i as int);
                }
                ops.push(self.bins[i].uninstall());
                self.bins.remove(i);
                assert(self@.bins =~= old(self)@.bins.remove(i as int));
                assert(op_views(ops@) =~= seq![LinkOpView::Uninstall { name: name@ }]);
            },
            None => {
                assert(op_views(ops@) =~= Seq::<LinkOpView>::empty());
            },
        }
        ops
    }

    /// Takes every record that was imported from the directory `path` out
    /// of the group and returns the uninstalls of their links, in the order
    /// of the records. A record was imported from the directory where its
    /// source is the same path, whatever way the two are written. The
    /// uninstalls are for a group whose links are in place: the registry
    /// carries them out for the active group only.
    pub fn remove_bin_by_path(&mut self, path: &str) -> (ops: Vec<LinkOp>)
        requires
            old(self).wf(),
        ensures
            final(self).wf(),
            final(self)@.index == old(self)@.index,
            final(self)@.bins == not_from_source(old(self)@.bins, path@),
            op_views(ops@) == uninstalls(from_source(old(self)@.bins, path@)),
    {
        let ghost all = self@.bins;
        let ghost gone = |b: BinView| tagged(b, path@);
        let ghost stay = |b: BinView| !tagged(b, path@);
        let wanted = path_components(path);
        let mut kept: Vec<Bin> = Vec::new();
        let mut ops: Vec<LinkOp> = Vec::new();
        let mut i: usize = 0;
        proof {
            reveal(Seq::filter);
            assert(all.take(0).filter(stay) =~= bin_views(kept@));
            assert(uninstalls(all.take(0).filter(gone)) =~= op_views(ops@));
        }
        while i < self.bins.len()
            invariant
                i <= self.bins.len(),
                all == self@.bins,
                gone == |b: BinView| tagged(b, path@),
                stay == |b: BinView| !tagged(b, path@),
                line_views(wanted@) == components(path@),
                bin_views(kept@) == all.take(i as int).filter(stay),
                op_views(ops@) == uninstalls(all.take(i as int).filter(gone)),
            decreases self.bins.len() - i,
        {
            let bin = &self.bins[i];
            let leaves = match &bin.source_dir {
                Some(dir) => same_components(&path_components(dir.as_str()), &wanted),
                None => false,
            };
            proof {
                let sofar = all.take(i as int);
                assert(all.take(i + 1) =~= sofar.push(all[i as int]));
                sofar.lemma_filter_push(all[i as int], stay);
                sofar.lemma_filter_push(all[i as int], gone);
                assert(leaves == gone(all[i as int]));
                assert(leaves == !stay(all[i as int]));
            }
            if leaves {
                let op = bin.uninstall();
                proof {
                    lemma_uninstalls_push(all.take(i as int).filter(gone), all[i as int]);
                    assert(op_views(ops@.push(op)) =~= op_views(ops@).push(op@));
                }
                ops.push(op);
            } else {
                let copy = bin.clone();
                proof {
                    assert(bin_views(kept@.push(copy)) =~= bin_views(kept@).push(copy@));
                }
                kept.push(copy);
            }
            i += 1;
        }
        proof {
            assert(all.take(self.bins.len() as int) =~= all);
            lemma_filter_names(all, stay);
        }
        self.bins = kept;
        ops
    }
}

/// A group under the name it is registered with.
#[derive(Debug)]
struct Slot {
    name: String,
    group: Group,
}

/// The registry: the groups, the name of the active one, and the managed
/// directory.
#[derive(Debug)]
pub struct Config {
    active_group: String,
    bin_dir: String,
    groups: Vec<Slot>,
}

impl View for Config {
    type V = ConfigView;

    closed spec fn view(&self) -> ConfigView {
        ConfigView {
            active_group: self.active_group@,
            bin_dir: self.bin_dir@,
            groups: self.groups@.map_values(
                |slot: Slot| NamedGroup { name: slot.name@, group: slot.group@ },
            ),
        }
    }
}

/// A record as it is kept on disk. The flag may be missing, as it is in
/// files that were written before records could be disabled; a record
/// without a flag is enabled.
#[derive(Debug, PartialEq, Eq)]
pub struct StoredBin {
    pub name: String,
    pub path: String,
    pub source_dir: Option<String>,
    pub enabled: Option<bool>,
}

/// A group as it is kept on disk: its ordinal and its records, each filed
/// under an alias.
#[derive(Debug)]
pub struct StoredGroup {
    pub index: usize,
    pub bins: Vec<(String, StoredBin)>,
}

impl View for StoredBin {
    type V = StoredBinView;

    open spec fn view(&self) -> StoredBinView {
        StoredBinView {
            name: self.name@,
            path: self.path@,
            source_dir: text_of(self.source_dir),
            enabled: self.enabled,
        }
    }
}

/// The registry as it is kept on disk: the active group, the managed
/// directory and the groups, each filed under its name.
#[derive(Debug)]
pub struct StoredConfig {
    pub active_group: String,
    pub bin_dir: String,
    pub groups: Vec<(String, StoredGroup)>,
}

impl View for StoredGroup {
    type V = StoredGroupView;

    open spec fn view(&self) -> StoredGroupView {
        StoredGroupView {
            index: self.index,
            bins: self.bins@.map_values(|e: (String, StoredBin)| (e.0@, e.1@)),
        }
    }
}

impl View for StoredConfig {
    type V = StoredConfigView;

    open spec fn view(&self) -> StoredConfigView {
        StoredConfigView {
            active_group: self.active_group@,
            bin_dir: self.bin_dir@,
            groups: self.groups@.map_values(|e: (String, StoredGroup)| (e.0@, e.1@)),
        }
    }
}

/// The hits of `hits`, each by the text of its names and the view of its
/// record.
pub open spec fn hit_views(hits: Seq<(String, String, &Bin)>) -> Seq<
    (Seq<char>, Seq<char>, BinView),
> {
    hits.map_values(|h: (String, String, &Bin)| (h.0@, h.1@, h.2@))
}

/// Whether a query occurs in a name or in a path, all three in lowercase
/// already.
pub fn matches_query(name: &str, path: &str, query: &str) -> (hit: bool)
    ensures
        hit == (occurs_in(query@, name@) || occurs_in(query@, path@)),
{
    contains(name, query) || contains(path, query)
}

impl Config {
    /// No two groups share a name, and within a group no two records do.
    pub open spec fn wf(&self) -> bool {
        self@.wf()
    }

    /// A registry without groups in which `active_group` is active.
    pub fn with_active(active_group: String, bin_dir: String) -> (config: Config)
        ensures
            config.wf(),
            config@ == (ConfigView {
                active_group: active_group@,
                bin_dir: bin_dir@,
                groups: Seq::empty(),
            }),
            config@.projection() == Map::<Seq<char>, Seq<char>>::empty(),
    {
        let config = Config { active_group, bin_dir, groups: Vec::new() };
        assert(config@.groups =~= Seq::empty());
        assert(config@.projection() =~= Map::<Seq<char>, Seq<char>>::empty());
        config
    }

    /// A fresh registry for the managed directory `bin_dir`: no groups, and
    /// the default group active.
    pub fn new(bin_dir: String) -> (config: Config)
        ensures
            config.wf(),
            config@ == (ConfigView {
                active_group: GLOBAL_DEFAULT_GROUP_NAME@,
                bin_dir: bin_dir@,
                groups: Seq::empty(),
            }),
            config@.projection() == Map::<Seq<char>, Seq<char>>::empty(),
    {
        Config::with_active(GLOBAL_DEFAULT_GROUP_NAME.to_owned(), bin_dir)
    }

    /// The name of the active group.
    pub fn active_group(&self) -> (name: &str)
        ensures
            name@ == self@.active_group,
    {
        self.active_group.as_str()
    }

    /// The managed directory.
    pub fn bin_dir(&self) -> (dir: &str)
        ensures
            dir@ == self@.bin_dir,
    {
        self.bin_dir.as_str()
    }

    /// The place of the group called `name`, if there is one.
    fn group_index(&self, name: &str) -> (at: Option<usize>)
        requires
            self.wf(),
        ensures
            match at {
                Some(i) => i < self.groups.len() && self@.has_group(name@) && self@.group_place(
                    name@,
                ) == i,
                None => !self@.has_group(name@),
            },
    {
        let mut i: usize = 0;
        while i < self.groups.len()
            invariant
                i <= self.groups.len(),
                self.wf(),
                forall|k: int| 0 <= k < i ==> self@.groups[k].name != name@,
            decreases self.groups.len() - i,
        {
            if str_eq(self.groups[i].name.as_str(), name) {
                proof {
                    assert(self@.groups[i as int].name == name@);
                    lemma_group_place(self@, i as int);
                }
                return Some(i);
            }
            i += 1;
        }
        None
    }

    /// Whether a group called `group` is registered.
    pub fn group_exists(&self, group: &str) -> (exists: bool)
        requires
            self.wf(),
        ensures
            exists == self@.has_group(group@),
    {
        self.group_index(group).is_some()
    }

    /// The group called `name`, if it is registered.
    pub fn group(&self, name: &str) -> (found: Option<&Group>)
        requires
            self.wf(),
        ensures
            match found {
                Some(group) => self@.has_group(name@) && group@ == self@.group_of(name@)
                    && group.wf(),
                None => !self@.has_group(name@),
            },
    {
        match self.group_index(name) {
            Some(i) => {
                assert(distinct_names(self@.groups[i as int].group.bins));
                Some(&self.groups[i].group)
            },
            None => None,
        }
    }

    /// The names of the groups, in the order in which they were registered.
    pub fn group_names(&self) -> (names: Vec<String>)
        ensures
            names@.len() == self@.groups.len(),
            forall|i: int| 0 <= i < names@.len() ==> names@[i]@ == self@.groups[i].name,
    {
        let mut names: Vec<String> = Vec::new();
        let mut i: usize = 0;
        while i < self.groups.len()
            invariant
                i <= self.groups.len(),
                names@.len() == i,
                forall|k: int| 0 <= k < i ==> names@[k]@ == self@.groups[k].name,
            decreases self.groups.len() - i,
        {
            names.push(self.groups[i].name.clone());
            i += 1;
        }
        names
    }

    /// Registers `group` under `name`, in the place of the group of that
    /// name or at the end where there is none. This builds a registry up,
    /// as when a saved one is restored, whose links the managed directory
    /// holds already; no link operation comes of it.
    pub fn insert_group(&mut self, name: String, group: Group)
        requires
            old(self).wf(),
            group.wf(),
        ensures
            final(self).wf(),
            final(self)@ == old(self)@.with_group(name@, group@),
    {
        proof {
            lemma_with_group(self@, name@, group@);
        }
        match self.group_index(name.as_str()) {
            Some(i) => {
                self.groups[i] = Slot { name, group };
            },
            None => {
                self.groups.push(Slot { name, group });
            },
        }
        assert(self@.groups =~= old(self)@.with_group(name@, group@).groups);
    }

    /// The registry that a stored registry stands for: its groups are
    /// registered one after the other, so that of two groups filed under one
    /// name the later stays. No link operation comes of it: the managed
    /// directory is taken to hold the links of the registry that was saved.
    pub fn load(stored: &StoredConfig) -> (config: Config)
        ensures
            config.wf(),
            config@ == stored@.restored(),
    {
        let mut config = Config::with_active(stored.active_group.clone(), stored.bin_dir.clone());
        let mut i: usize = 0;
        while i < stored.groups.len()
            invariant
                i <= stored.groups.len(),
                config.wf(),
                config@ == stored@.restored_upto(i as int),
            decreases stored.groups.len() - i,
        {
            let entry = &stored.groups[i];
            let group = Group::load(&entry.1);
            proof {
                assert(stored@.groups[i as int] == (entry.0@, entry.1@));
            }
            config.insert_group(entry.0.clone(), group);
            i += 1;
        }
        config
    }

    /// The registry as it is kept on disk: each group filed under its name.
    /// Restoring what was saved gives the registry back.
    pub fn save(&self) -> (stored: StoredConfig)
        requires
            self.wf(),
        ensures
            stored@ == self@.stored(),
            stored@.restored() == self@,
    {
        let mut groups: Vec<(String, StoredGroup)> = Vec::new();
        let mut i: usize = 0;
        while i < self.groups.len()
            invariant
                i <= self.groups.len(),
                groups@.len() == i,
                forall|k: int|
                    0 <= k < i ==> groups@[k].0@ == self@.groups[k].name && groups@[k].1@
                        == self@.groups[k].group.stored(),
            decreases self.groups.len() - i,
        {
            groups.push((self.groups[i].name.clone(), self.groups[i].group.save()));
            i += 1;
        }
        let stored = StoredConfig {
            active_group: self.active_group.clone(),
            bin_dir: self.bin_dir.clone(),
            groups,
        };
        proof {
            assert(stored@.groups =~= self@.stored().groups);
            restored_is_what_was_stored(self@);
        }
        stored
    }

    /// Looks a record up by group and name. The flag of the record plays no
    /// part: a disabled record is found like an enabled one.
    pub fn find(&self, group: &str, name: &str) -> (found: Option<&Bin>)
        requires
            self.wf(),
        ensures
            match found {
                Some(bin) => self@.has_bin(group@, name@) && bin@ == self@.bin(group@, name@),
                None => !self@.has_bin(group@, name@),
            },
    {
        match self.group_index(group) {
            Some(g) => {
                assert(distinct_names(self@.groups[g as int].group.bins));
                self.groups[g].group.get(name)
            },
            None => None,
        }
    }

    /// Looks a record up by group and name, and says what is missing where
    /// it finds none: the group, or the record in it.
    pub fn get_bin_info(&self, group: &str, name: &str) -> (found: Result<&Bin, Error>)
        requires
            self.wf(),
        ensures
            match found {
                Ok(bin) => self@.lookup_error(group@, name@) is None && bin@ == self@.bin(
                    group@,
                    name@,
                ),
                Err(e) => self@.lookup_error(group@, name@) == Some(e@),
            },
    {
        match self.group_index(group) {
            Some(g) => {
                assert(distinct_names(self@.groups[g as int].group.bins));
                match self.groups[g].group.get(name) {
                    Some(bin) => Ok(bin),
                    None => Err(
                        Error::NotFound { group: group.to_owned(), name: Some(name.to_owned()) },
                    ),
                }
            },
            None => Err(Error::NotFound { group: group.to_owned(), name: None }),
        }
    }

    /// The uninstalls of every record of the group in place `g`, in order.
    fn uninstall_group(&self, g: usize) -> (ops: Vec<LinkOp>)
        requires
            g < self.groups.len(),
        ensures
            op_views(ops@) == uninstalls(self@.groups[g as int].group.bins),
    {
        let bins = &self.groups[g].group.bins;
        let mut ops: Vec<LinkOp> = Vec::new();
        let mut i: usize = 0;
        assert(uninstalls(bin_views(bins@).take(0)) =~= op_views(ops@));
        while i < bins.len()
            invariant
                i <= bins.len(),
                op_views(ops@) == uninstalls(bin_views(bins@).take(i as int)),
            decreases bins.len() - i,
        {
            let op = bins[i].uninstall();
            proof {
                let all = bin_views(bins@);
                lemma_uninstalls_push(all.take(i as int), all[i as int]);
                assert(all.take(i + 1) =~= all.take(i as int).push(all[i as int]));
                assert(op_views(ops@.push(op)) =~= op_views(ops@).push(op@));
            }
            ops.push(op);
            i += 1;
        }
        assert(bin_views(bins@).take(bins.len() as int) =~= bin_views(bins@));
        ops
    }

    /// The installs of every enabled record of the group in place `g`, in
    /// order, added to `ops`.
    fn install_group(&self, g: usize, ops: &mut Vec<LinkOp>)
        requires
            g < self.groups.len(),
        ensures
            op_views(final(ops)@) == op_views(old(ops)@) + installs(
                self@.groups[g as int].group.bins,
            ),
    {
        let bins = &self.groups[g].group.bins;
        let mut i: usize = 0;
        proof {
            reveal(Seq::filter);
            assert(installs(bin_views(bins@).take(0)) =~= Seq::<LinkOpView>::empty());
            assert(op_views(ops@) =~= op_views(old(ops)@) + Seq::<LinkOpView>::empty());
        }
        while i < bins.len()
            invariant
                i <= bins.len(),
                op_views(ops@) == op_views(old(ops)@) + installs(bin_views(bins@).take(i as int)),
            decreases bins.len() - i,
        {
            proof {
                let all = bin_views(bins@);
                lemma_installs_push(all.take(i as int), all[i as int]);
                assert(all.take(i + 1) =~= all.take(i as int).push(all[i as int]));
            }
            if bins[i].enabled {
                let op = LinkOp::Install {
                    name: bins[i].name.clone(),
                    target: bins[i].path.clone(),
                };
                proof {
                    assert(op_views(ops@.push(op)) =~= op_views(ops@).push(op@));
                    let sofar = installs(bin_views(bins@).take(i as int));
                    assert((op_views(old(ops)@) + sofar).push(op@) =~= op_views(old(ops)@)
                        + sofar.push(op@));
                }
                ops.push(op);
            }
            i += 1;
        }
        assert(bin_views(bins@).take(bins.len() as int) =~= bin_views(bins@));
    }

    /// Sets the flag of the record `name` of `group`. Where the flag changes
    /// and the group is active, the record's link is installed or
    /// uninstalled; otherwise no link is touched.
    pub fn set_enabled(&mut self, group: &str, name: &str, enabled: bool) -> (result: Result<
        Vec<LinkOp>,
        Error,
    >)
        requires
            old(self).wf(),
        ensures
            final(self).wf(),
            match result {
                Ok(ops) => {
                    &&& old(self)@.lookup_error(group@, name@) is None
                    &&& final(self)@ == old(self)@.with_enabled(group@, name@, enabled)
                    &&& op_views(ops@) == old(self)@.enable_ops(group@, name@, enabled)
                    &&& apply_ops(old(self)@.projection(), op_views(ops@))
                        == final(self)@.projection()
                },
                Err(e) => {
                    &&& old(self)@.lookup_error(group@, name@) == Some(e@)
                    &&& final(self)@ == old(self)@
                },
            },
    {
        let g = match self.group_index(group) {
            Some(g) => g,
            None => {
                return Err(Error::NotFound { group: group.to_owned(), name: None });
            },
        };
        assert(distinct_names(self@.groups[g as int].group.bins));
        let b = match self.groups[g].group.place(name) {
            Some(b) => b,
            None => {
                return Err(
                    Error::NotFound { group: group.to_owned(), name: Some(name.to_owned()) },
                );
            },
        };
        let mut ops: Vec<LinkOp> = Vec::new();
        if self.groups[g].group.bins[b].enabled != enabled {
            self.groups[g].group.bins[b].enabled = enabled;
            if str_eq(self.active_group.as_str(), group) {
                let bin = &self.groups[g].group.bins[b];
                if enabled {
                    ops.push(LinkOp::Install { name: bin.name.clone(), target: bin.path.clone() });
                } else {
                    ops.push(LinkOp::Uninstall { name: bin.name.clone() });
                }
            }
        }
        proof {
            let before = old(self)@;
            let bins = before.bins_of(group@);
            let flagged = BinView { enabled, ..bins[b as int] };
            set_enabled_keeps_links(before, group@, name@, enabled);
            assert(self@.groups[g as int].group.bins =~= bins.update(b as int, flagged));
            assert(self@.groups =~= before.with_enabled(group@, name@, enabled).groups);
            assert(op_views(ops@) =~= before.enable_ops(group@, name@, enabled));
        }
        Ok(ops)
    }

    /// Gives the record `old_name` of `group` the name `new_name`; path,
    /// source and flag stay. In the active group the old link is uninstalled
    /// and, for an enabled record, the new one installed. A name that the
    /// group holds already is refused as a collision, be it the record's
    /// own, and nothing changes.
    pub fn rename(&mut self, group: &str, old_name: &str, new_name: &str) -> (result: Result<
        Vec<LinkOp>,
        Error,
    >)
        requires
            old(self).wf(),
        ensures
            final(self).wf(),
            match result {
                Ok(ops) => {
                    &&& old(self)@.rename_error(group@, old_name@, new_name@) is None
                    &&& final(self)@ == old(self)@.renamed(group@, old_name@, new_name@)
                    &&& op_views(ops@) == old(self)@.rename_ops(group@, old_name@, new_name@)
                    &&& apply_ops(old(self)@.projection(), op_views(ops@))
                        == final(self)@.projection()
                },
                Err(e) => {
                    &&& old(self)@.rename_error(group@, old_name@, new_name@) == Some(e@)
                    &&& final(self)@ == old(self)@
                },
            },
    {
        let g = match self.group_index(group) {
            Some(g) => g,
            None => {
                return Err(Error::NotFound { group: group.to_owned(), name: None });
            },
        };
        assert(distinct_names(self@.groups[g as int].group.bins));
        let b = match self.groups[g].group.place(old_name) {
            Some(b) => b,
            None => {
                return Err(
                    Error::NotFound { group: group.to_owned(), name: Some(old_name.to_owned()) },
                );
            },
        };
        if self.groups[g].group.place(new_name).is_some() {
            return Err(
                Error::NameCollision { group: group.to_owned(), name: new_name.to_owned() },
            );
        }
        let mut ops: Vec<LinkOp> = Vec::new();
        self.groups[g].group.bins[b].name = new_name.to_owned();
        if str_eq(self.active_group.as_str(), group) {
            let bin = &self.groups[g].group.bins[b];
            ops.push(LinkOp::Uninstall { name: old_name.to_owned() });
            if bin.enabled {
                ops.push(LinkOp::Install { name: bin.name.clone(), target: bin.path.clone() });
            }
        }
        proof {
            let before = old(self)@;
            let bins = before.bins_of(group@);
            let renamed = BinView { name: new_name@, ..bins[b as int] };
            rename_keeps_links(before, group@, old_name@, new_name@);
            assert(self@.groups[g as int].group.bins =~= bins.update(b as int, renamed));
            assert(self@.groups =~= before.renamed(group@, old_name@, new_name@).groups);
            assert(op_views(ops@) =~= before.rename_ops(group@, old_name@, new_name@));
        }
        Ok(ops)
    }

    /// Makes `target` the active group. Every record of the group that was
    /// active is uninstalled, whatever its flag; then every enabled record
    /// of the new group is installed. A group that is not registered is
    /// refused before any link is touched, unless it is the active one
    /// already, which changes nothing.
    pub fn switch(&mut self, target: &str) -> (result: Result<Vec<LinkOp>, Error>)
        requires
            old(self).wf(),
        ensures
            final(self).wf(),
            match result {
                Ok(ops) => {
                    &&& old(self)@.switch_error(target@) is None
                    &&& final(self)@ == old(self)@.switched(target@)
                    &&& op_views(ops@) == old(self)@.switch_ops(target@)
                    &&& apply_ops(old(self)@.projection(), op_views(ops@))
                        == final(self)@.projection()
                },
                Err(e) => {
                    &&& old(self)@.switch_error(target@) == Some(e@)
                    &&& final(self)@ == old(self)@
                },
            },
    {
        proof {
            if old(self)@.switch_error(target@) is None {
                switch_keeps_links(old(self)@, target@);
            }
        }
        if str_eq(self.active_group.as_str(), target) {
            let ops: Vec<LinkOp> = Vec::new();
            assert(op_views(ops@) =~= Seq::<LinkOpView>::empty());
            assert(self@ == old(self)@.switched(target@));
            return Ok(ops);
        }
        let to = match self.group_index(target) {
            Some(to) => to,
            None => {
                return Err(Error::NotFound { group: target.to_owned(), name: None });
            },
        };
        let mut ops: Vec<LinkOp> = match self.group_index(self.active_group.as_str()) {
            Some(from) => self.uninstall_group(from),
            None => {
                let none: Vec<LinkOp> = Vec::new();
                assert(op_views(none@) =~= uninstalls(Seq::<BinView>::empty()));
                none
            },
        };
        self.install_group(to, &mut ops);
        self.active_group = target.to_owned();
        Ok(ops)
    }

    /// The place of the group called `name`, which is registered without
    /// records first where it is missing.
    fn ensure_group(&mut self, name: &str) -> (g: usize)
        requires
            old(self).wf(),
        ensures
            final(self).wf(),
            g < final(self).groups.len(),
            final(self)@ == old(self)@.with_group(name@, old(self)@.group_of(name@)),
            final(self)@.groups[g as int].name == name@,
            final(self)@.group_place(name@) == g,
            final(self)@.has_group(name@),
    {
        proof {
            lemma_bins_distinct(self@, name@);
            lemma_with_group(self@, name@, self@.group_of(name@));
        }
        match self.group_index(name) {
            Some(g) => {
                assert(self@.groups =~= self@.with_group(name@, self@.group_of(name@)).groups);
                g
            },
            None => {
                self.groups.push(Slot { name: name.to_owned(), group: Group::new(0) });
                let g: usize = self.groups.len() - 1;
                proof {
                    assert(self@.groups =~= old(self)@.with_group(
                        name@,
                        old(self)@.group_of(name@),
                    ).groups);
                    lemma_group_place(self@, g as int);
                }
                g
            },
        }
    }

    /// Registers what was found at a path in `group`, which is created where
    /// it is missing.
    ///
    /// An executable file becomes one enabled record, called `name` or,
    /// where no alias is given, by the stem of the file name. A directory
    /// becomes one enabled record per entry, each called by its file name
    /// and tagged with the directory; `name` plays no part. A record takes
    /// the place of an earlier one of the same name. Where the group is
    /// active each new record is installed.
    ///
    /// Anything else is refused as `InvalidPathKind`, as is a file without a
    /// stem and without an alias. A name that cannot be written as text is
    /// refused as `NonUtf8Name`: the stem of a file that is given no alias,
    /// or the file name of an entry of a directory. A refusal changes
    /// nothing.
    pub fn add(&mut self, group: &str, target: &Target, name: Option<String>) -> (result: Result<
        Vec<LinkOp>,
        Error,
    >)
        requires
            old(self).wf(),
        ensures
            final(self).wf(),
            match result {
                Ok(ops) => {
                    &&& target@.error(text_of(name)) is None
                    &&& final(self)@ == old(self)@.added(group@, target@, text_of(name))
                    &&& op_views(ops@) == old(self)@.add_ops(group@, target@, text_of(name))
                    &&& apply_ops(old(self)@.projection(), op_views(ops@))
                        == final(self)@.projection()
                },
                Err(e) => {
                    &&& target@.error(text_of(name)) == Some(e@)
                    &&& final(self)@ == old(self)@
                },
            },
    {
        let ghost alias = text_of(name);
        let records = match target.records(name) {
            Ok(records) => records,
            Err(e) => {
                return Err(e);
            },
        };
        let into_directory = match target {
            Target::Directory { .. } => true,
            _ => false,
        };
        let active = str_eq(self.active_group.as_str(), group);
        let g = self.ensure_group(group);
        let ghost start = self@;
        let ghost before = old(self)@.bins_of(group@);
        let ghost new = bin_views(records@);
        let count_before: usize = self.groups[g].group.bins.len();
        let mut ops: Vec<LinkOp> = Vec::new();
        let mut i: usize = 0;
        proof {
            lemma_bins_distinct(old(self)@, group@);
            assert(op_views(ops@) =~= links(new.take(0)));
            assert(new.take(0) =~= Seq::<BinView>::empty());
            assert(self@.groups[g as int].group.bins == before);
        }
        while i < records.len()
            invariant
                i <= records.len(),
                g < self.groups.len(),
                new == bin_views(records@),
                self.groups@.len() == start.groups.len(),
                forall|k: int|
                    0 <= k < start.groups.len() && k != g ==> self@.groups[k] == start.groups[k],
                self@.groups[g as int].name == group@,
                self@.groups[g as int].group.index == start.groups[g as int].group.index,
                self@.groups[g as int].group.bins == put_all(before, new.take(i as int)),
                distinct_names(self@.groups[g as int].group.bins),
                self@.active_group == start.active_group,
                self@.bin_dir == start.bin_dir,
                op_views(ops@) == if active {
                    links(new.take(i as int))
                } else {
                    Seq::<LinkOpView>::empty()
                },
            decreases records.len() - i,
        {
            let bin = records[i].clone();
            proof {
                assert(bin@ == new[i as int]);
                assert(new.take(i + 1) =~= new.take(i as int).push(new[i as int]));
                assert(new.take(i + 1).drop_last() =~= new.take(i as int));
            }
            if active {
                let op = LinkOp::Install { name: bin.name.clone(), target: bin.path.clone() };
                proof {
                    assert(op_views(ops@.push(op)) =~= op_views(ops@).push(op@));
                    assert(links(new.take(i + 1)) =~= links(new.take(i as int)).push(op@));
                }
                ops.push(op);
            }
            self.groups[g].group.insert(bin);
            i += 1;
        }
        let count_after: usize = self.groups[g].group.bins.len();
        let count: usize = if into_directory {
            count_before
        } else {
            count_after
        };
        self.groups[g].group.index = if count == 0 {
            0
        } else {
            count - 1
        };
        proof {
            let first = old(self)@;
            assert(new.take(records.len() as int) =~= new);
            add_keeps_links(first, group@, target@, alias);
            let bins = put_all(before, new);
            let group_after = GroupView {
                index: target@.ordinal(before.len(), bins.len()) as usize,
                bins,
            };
            assert(self@.groups[g as int] == NamedGroup { name: group@, group: group_after });
            let wanted = first.with_group(group@, group_after).groups;
            if first.has_group(group@) {
                assert(start.groups =~= first.groups);
                assert(g == first.group_place(group@));
            } else {
                assert(start.groups =~= first.groups.push(
                    NamedGroup { name: group@, group: first.group_of(group@) },
                ));
                assert(g == first.groups.len());
            }
            assert forall|k: int| 0 <= k < wanted.len() implies wanted[k] == self@.groups[k] by {
                if k != g {
                    assert(self@.groups[k] == start.groups[k]);
                }
            }
            assert(self@.groups =~= wanted);
        }
        Ok(ops)
    }

    /// Takes records out of `group`; a group that is not registered is left
    /// alone, and so is a name that the group does not hold.
    ///
    /// With a `name` that holds a path separator, every record that was
    /// imported from the directory of that name leaves; with any other
    /// `name`, the record of that name leaves. Without a `name`, and with
    /// `delete`, every record leaves and the group with them; the group
    /// also goes where `delete` is asked for and its last record leaves.
    /// In the active group each record that leaves is uninstalled; in any
    /// other group no link is touched.
    pub fn remove(&mut self, group: &str, name: Option<&str>, delete: bool) -> (ops: Vec<LinkOp>)
        requires
            old(self).wf(),
        ensures
            final(self).wf(),
            final(self)@ == old(self)@.removed(
                group@,
                match name {
                    Some(n) => Some(n@),
                    None => None,
                },
                delete,
            ),
            op_views(ops@) == old(self)@.remove_ops(
                group@,
                match name {
                    Some(n) => Some(n@),
                    None => None,
                },
                delete,
            ),
            apply_ops(old(self)@.projection(), op_views(ops@)) == final(self)@.projection(),
    {
        let ghost first = old(self)@;
        let ghost tag: Option<Seq<char>> = match name {
            Some(n) => Some(n@),
            None => None,
        };
        let ghost bins = first.bins_of(group@);
        proof {
            remove_keeps_links(first, group@, tag, delete);
            lemma_bins_distinct(first, group@);
        }
        let active = str_eq(self.active_group.as_str(), group);
        let g = match self.group_index(group) {
            Some(g) => g,
            None => {
                let ops: Vec<LinkOp> = Vec::new();
                proof {
                    assert(bins =~= Seq::<BinView>::empty());
                    lemma_leaving_nothing(tag, delete);
                    assert(op_views(ops@) =~= first.remove_ops(group@, tag, delete));
                }
                return ops;
            },
        };
        assert(distinct_names(self@.groups[g as int].group.bins));
        let count_before: usize = self.groups[g].group.bins.len();
        let found: Vec<LinkOp> = match name {
            Some(n) => {
                if has_char(n, '/') || has_char(n, '\\') {
                    self.groups[g].group.remove_bin_by_path(n)
                } else {
                    let found = self.groups[g].group.remove_bin_by_name(n);
                    proof {
                        if has_name(bins, n@) {
                            assert(uninstalls(seq![bins[place_of(bins, n@)]]) =~= op_views(found@));
                        } else {
                            assert(uninstalls(Seq::<BinView>::empty()) =~= op_views(found@));
                        }
                    }
                    found
                }
            },
            None => {
                if delete {
                    self.uninstall_group(g)
                } else {
                    let found: Vec<LinkOp> = Vec::new();
                    assert(uninstalls(Seq::<BinView>::empty()) =~= op_views(found@));
                    found
                }
            },
        };
        assert(op_views(found@) == uninstalls(leaving(bins, tag, delete)));
        let emptied = count_before > 0 && self.groups[g].group.bins.len() == 0;
        if delete && (name.is_none() || emptied) {
            self.groups.remove(g);
            proof {
                assert(group_goes(bins, tag, delete));
                assert(self@.groups =~= first.groups.remove(g as int));
            }
        } else {
            proof {
                assert(!group_goes(bins, tag, delete));
                let left = self@.groups[g as int].group.bins;
                assert(left == staying(bins, tag, delete));
                assert(self@.groups =~= first.with_bins(group@, left).groups);
            }
        }
        if active {
            found
        } else {
            let ops: Vec<LinkOp> = Vec::new();
            assert(op_views(ops@) =~= Seq::<LinkOpView>::empty());
            ops
        }
    }

    /// The records whose name or path holds `query`, letter case aside:
    /// for each the name of its group, its own name and the record, group
    /// after group and record after record.
    pub fn search(&self, query: &str) -> (hits: Vec<(String, String, &Bin)>)
        ensures
            hit_views(hits@) == self@.hits(query@),
    {
        let wanted = to_lowercase(query);
        let ghost each = |g: NamedGroup| group_hits(g, query@);
        let mut hits: Vec<(String, String, &Bin)> = Vec::new();
        let mut g: usize = 0;
        proof {
            assert(self@.groups.take(0).flat_map(each) =~= hit_views(hits@)) by {
                assert(self@.groups.take(0).map_values(each) =~= Seq::empty());
            }
        }
        while g < self.groups.len()
            invariant
                g <= self.groups.len(),
                wanted@ == crate::text::lowercase(query@),
                each == |g: NamedGroup| group_hits(g, query@),
                hit_views(hits@) == self@.groups.take(g as int).flat_map(each),
            decreases self.groups.len() - g,
        {
            let slot = &self.groups[g];
            let ghost done = hit_views(hits@);
            let ghost all = slot.group@.bins;
            let mut b: usize = 0;
            proof {
                reveal(Seq::filter);
                assert(group_hits(
                    NamedGroup {
                        name: slot.name@,
                        group: GroupView { bins: all.take(0), ..slot.group@ },
                    },
                    query@,
                ) =~= Seq::empty());
                assert(done + Seq::empty() =~= done);
            }
            while b < slot.group.bins.len()
                invariant
                    b <= slot.group.bins.len(),
                    wanted@ == crate::text::lowercase(query@),
                    all == slot.group@.bins,
                    hit_views(hits@) == done + group_hits(
                        NamedGroup {
                            name: slot.name@,
                            group: GroupView { bins: all.take(b as int), ..slot.group@ },
                        },
                        query@,
                    ),
                decreases slot.group.bins.len() - b,
            {
                let bin = &slot.group.bins[b];
                let name = to_lowercase(bin.name.as_str());
                let path = to_lowercase(bin.path.as_str());
                proof {
                    let sofar = GroupView { bins: all.take(b as int), ..slot.group@ };
                    lemma_group_hits_push(slot.name@, sofar, all[b as int], query@);
                    assert(all.take(b + 1) =~= all.take(b as int).push(all[b as int]));
                }
                if matches_query(name.as_str(), path.as_str(), wanted.as_str()) {
                    let hit = (slot.name.clone(), bin.name.clone(), bin);
                    proof {
                        let sofar = group_hits(
                            NamedGroup {
                                name: slot.name@,
                                group: GroupView { bins: all.take(b as int), ..slot.group@ },
                            },
                            query@,
                        );
                        let row = (slot.name@, bin@.name, bin@);
                        assert(hit_views(hits@.push(hit)) =~= hit_views(hits@).push(row));
                        assert((done + sofar).push(row) =~= done + sofar.push(row));
                    }
                    hits.push(hit);
                }
                b += 1;
            }
            proof {
                assert(all.take(slot.group.bins.len() as int) =~= all);
                let whole = self@.groups[g as int];
                assert(whole == NamedGroup {
                    name: slot.name@,
                    group: GroupView { bins: all, ..slot.group@ },
                });
                self@.groups.lemma_flat_map_take_append(each, g as int);
            }
            g += 1;
        }
        assert(self@.groups.take(self.groups.len() as int) =~= self@.groups);
        hits
    }
}

} // verus!

//! What holds of the registry whatever it holds: each mutation keeps it
//! well formed, and the link operations it asks for keep the managed
//! directory showing the enabled records of the active group.

use vstd::prelude::*;
use crate::error::ErrorView;
use crate::lemmas::{
    lemma_bins_distinct, lemma_filter_names, lemma_group_place, lemma_install_all,
    lemma_installs_of_enabled, lemma_leaving, lemma_leaving_nothing, lemma_place_of,
    lemma_projection_put, lemma_projection_put_all, lemma_projection_rename, lemma_put,
    lemma_put_all, lemma_remove, lemma_restored_upto, lemma_uninstall_own, lemma_with_group,
    lemma_without_group,
};
use crate::links::{apply_ops, lemma_apply_ops_concat, lemma_apply_ops_single, LinkOpView};
use crate::model::{
    filed, group_goes, has_name, installs, looks_like_path, place_of, projection_of, put,
    put_all, staying, tagged, uninstalls, BinView, ConfigView, EntryView, GroupView, StemView,
    Step, StoredBinView, StoredConfigView, TargetView,
};

verus! {

/// Registering a target that is accepted keeps the registry well formed,
/// and the installs it asks for keep the managed directory in step: carried
/// out on the links of the registry before, they give the links of the
/// registry after.
pub proof fn add_keeps_links(
    c: ConfigView,
    group: Seq<char>,
    target: TargetView,
    name: Option<Seq<char>>,
)
    requires
        c.wf(),
        target.error(name) is None,
    ensures
        c.added(group, target, name).wf(),
        apply_ops(c.projection(), c.add_ops(group, target, name)) == c.added(
            group,
            target,
            name,
        ).projection(),
{
    let before = c.bins_of(group);
    let records = target.records(name);
    let bins = put_all(before, records);
    let after = c.added(group, target, name);
    lemma_bins_distinct(c, group);
    lemma_projection_put_all(before, records);
    lemma_installs_of_enabled(records);
    lemma_with_group(
        c,
        group,
        GroupView { index: target.ordinal(before.len(), bins.len()) as usize, bins },
    );
    if c.active_group != group {
        assert(after.bins_of(c.active_group) == c.bins_of(c.active_group));
    }
}

/// Setting the flag of a record that exists keeps the registry well formed
/// and the managed directory in step.
pub proof fn set_enabled_keeps_links(
    c: ConfigView,
    group: Seq<char>,
    name: Seq<char>,
    enabled: bool,
)
    requires
        c.wf(),
        c.lookup_error(group, name) is None,
    ensures
        c.with_enabled(group, name, enabled).wf(),
        apply_ops(c.projection(), c.enable_ops(group, name, enabled)) == c.with_enabled(
            group,
            name,
            enabled,
        ).projection(),
{
    let bins = c.bins_of(group);
    let at = place_of(bins, name);
    let flagged = BinView { enabled, ..bins[at] };
    let after = c.with_enabled(group, name, enabled);
    lemma_bins_distinct(c, group);
    assert(put(bins, flagged) == bins.update(at, flagged));
    lemma_put(bins, flagged);
    lemma_projection_put(bins, flagged);
    lemma_with_group(c, group, GroupView { bins: bins.update(at, flagged), ..c.group_of(group) });
    if c.active_group != group {
        assert(after.bins_of(c.active_group) == c.bins_of(c.active_group));
    } else if bins[at].enabled == enabled {
        assert(bins.update(at, flagged) =~= bins);
    } else if enabled {
        lemma_apply_ops_single(
            c.projection(),
            LinkOpView::Install { name: bins[at].name, target: bins[at].path },
        );
    } else {
        lemma_apply_ops_single(c.projection(), LinkOpView::Uninstall { name: bins[at].name });
    }
}

/// A switch that is accepted keeps the registry well formed and the managed
/// directory in step: the links of the group that was active go, those of
/// the new one come.
pub proof fn switch_keeps_links(c: ConfigView, target: Seq<char>)
    requires
        c.wf(),
        c.switch_error(target) is None,
    ensures
        c.switched(target).wf(),
        apply_ops(c.projection(), c.switch_ops(target)) == c.switched(target).projection(),
{
    if target != c.active_group {
        let old_bins = c.bins_of(c.active_group);
        let new_bins = c.bins_of(target);
        lemma_bins_distinct(c, target);
        lemma_apply_ops_concat(c.projection(), uninstalls(old_bins), installs(new_bins));
        lemma_uninstall_own(old_bins);
        lemma_install_all(Map::<Seq<char>, Seq<char>>::empty(), new_bins);
        assert(Map::<Seq<char>, Seq<char>>::empty().union_prefer_right(projection_of(new_bins))
            =~= projection_of(new_bins));
        assert(c.switched(target).bins_of(target) == new_bins);
    } else {
        assert(c.switched(target) == c);
    }
}

/// A rename that is accepted keeps the registry well formed and the managed
/// directory in step.
pub proof fn rename_keeps_links(
    c: ConfigView,
    group: Seq<char>,
    old_name: Seq<char>,
    new_name: Seq<char>,
)
    requires
        c.wf(),
        c.rename_error(group, old_name, new_name) is None,
    ensures
        c.renamed(group, old_name, new_name).wf(),
        apply_ops(c.projection(), c.rename_ops(group, old_name, new_name)) == c.renamed(
            group,
            old_name,
            new_name,
        ).projection(),
{
    let bins = c.bins_of(group);
    let at = place_of(bins, old_name);
    let renamed = BinView { name: new_name, ..bins[at] };
    let after = c.renamed(group, old_name, new_name);
    lemma_bins_distinct(c, group);
    assert forall|i: int| 0 <= i < bins.len() && i != at implies bins[i].name != new_name by {
        lemma_place_of(bins, i);
    }
    lemma_projection_rename(bins, at, new_name);
    lemma_with_group(c, group, GroupView { bins: bins.update(at, renamed), ..c.group_of(group) });
    if c.active_group != group {
        assert(after.bins_of(c.active_group) == c.bins_of(c.active_group));
    } else {
        let gone = seq![LinkOpView::Uninstall { name: old_name }];
        lemma_apply_ops_concat(c.projection(), gone, renamed.install());
        lemma_apply_ops_single(c.projection(), LinkOpView::Uninstall { name: old_name });
        if renamed.enabled {
            lemma_apply_ops_single(
                c.projection().remove(old_name),
                LinkOpView::Install { name: new_name, target: renamed.path },
            );
        } else {
            assert(renamed.install() =~= Seq::<LinkOpView>::empty());
        }
    }
}

/// A removal keeps the registry well formed and the managed directory in
/// step. In the active group the links of the records that leave go; in
/// any other group no link is touched.
pub proof fn remove_keeps_links(
    c: ConfigView,
    group: Seq<char>,
    name: Option<Seq<char>>,
    delete: bool,
)
    requires
        c.wf(),
    ensures
        c.removed(group, name, delete).wf(),
        group != c.active_group ==> c.remove_ops(group, name, delete) == Seq::<
            LinkOpView,
        >::empty(),
        apply_ops(c.projection(), c.remove_ops(group, name, delete)) == c.removed(
            group,
            name,
            delete,
        ).projection(),
{
    removal_leaves_what_stays(c, group, name, delete);
    lemma_bins_distinct(c, group);
    lemma_leaving(c.bins_of(group), name, delete);
}

/// What a removal leaves: in the group the records that stay, in their
/// order; the group itself unless it goes with its records; every other
/// group as it was.
pub proof fn removal_leaves_what_stays(
    c: ConfigView,
    group: Seq<char>,
    name: Option<Seq<char>>,
    delete: bool,
)
    requires
        c.wf(),
    ensures
        ({
            let after = c.removed(group, name, delete);
            let bins = c.bins_of(group);
            &&& after.wf()
            &&& after.active_group == c.active_group
            &&& after.bin_dir == c.bin_dir
            &&& after.bins_of(group) == staying(bins, name, delete)
            &&& after.has_group(group) == (c.has_group(group) && !group_goes(bins, name, delete))
            &&& forall|g: Seq<char>| g != group ==> after.has_group(g) == c.has_group(g)
            &&& forall|g: Seq<char>| g != group ==> after.group_of(g) == c.group_of(g)
        }),
{
    let after = c.removed(group, name, delete);
    let bins = c.bins_of(group);
    lemma_bins_distinct(c, group);
    lemma_leaving(bins, name, delete);
    if !c.has_group(group) {
        assert(bins =~= Seq::<BinView>::empty());
        lemma_leaving_nothing(name, delete);
    } else if group_goes(bins, name, delete) {
        lemma_without_group(c, c.group_place(group));
        assert(staying(bins, name, delete) =~= Seq::<BinView>::empty());
    } else {
        lemma_with_group(
            c,
            group,
            GroupView { bins: staying(bins, name, delete), ..c.group_of(group) },
        );
    }
}

/// What is found after a file was registered: the new record under its
/// alias, in a group that is registered now; under every other name, and in
/// every other group, what was found before.
pub proof fn added_file_is_found(
    c: ConfigView,
    group: Seq<char>,
    path: Seq<char>,
    stem: StemView,
    name: Option<Seq<char>>,
)
    requires
        c.wf(),
        name is Some || stem is Text,
    ensures
        ({
            let target = TargetView::File { path, stem };
            let after = c.added(group, target, name);
            let record = target.records(name)[0];
            &&& record == BinView {
                name: if name is Some { name->0 } else { stem->Text_0 },
                path,
                source_dir: None,
                enabled: true,
            }
            &&& after.has_group(group)
            &&& after.has_bin(group, record.name)
            &&& after.bin(group, record.name) == record
            &&& forall|g: Seq<char>, n: Seq<char>|
                g != group || n != record.name ==> after.has_bin(g, n) == c.has_bin(g, n)
            &&& forall|g: Seq<char>, n: Seq<char>|
                (g != group || n != record.name) && c.has_bin(g, n) ==> after.bin(g, n) == c.bin(
                    g,
                    n,
                )
        }),
{
    let target = TargetView::File { path, stem };
    let after = c.added(group, target, name);
    let records = target.records(name);
    let record = records[0];
    let before = c.bins_of(group);
    lemma_bins_distinct(c, group);
    assert(records.drop_last() =~= Seq::<BinView>::empty());
    assert(put_all(before, records.drop_last()) == before);
    assert(put_all(before, records) == put(before, record));
    lemma_put(before, record);
    lemma_with_group(
        c,
        group,
        GroupView {
            index: target.ordinal(before.len(), put(before, record).len()) as usize,
            bins: put(before, record),
        },
    );
}

/// What is found after a directory was imported: under the file name of
/// each entry a record of that name, tagged with the directory; under
/// every name that no entry has, and in every other group, what was found
/// before.
pub proof fn added_directory_is_found(
    c: ConfigView,
    group: Seq<char>,
    path: Seq<char>,
    entries: Seq<EntryView>,
    name: Option<Seq<char>>,
)
    requires
        c.wf(),
        forall|i: int| 0 <= i < entries.len() ==> entries[i].name is Some,
    ensures
        ({
            let target = TargetView::Directory { path, entries };
            let after = c.added(group, target, name);
            &&& after.has_group(group)
            &&& forall|i: int|
                0 <= i < entries.len() ==> after.has_bin(group, #[trigger] entries[i].name->0)
                    && after.bin(group, entries[i].name->0).source_dir == Some(path)
                    && after.bin(group, entries[i].name->0).enabled
            &&& forall|g: Seq<char>, n: Seq<char>|
                g != group || !has_name(target.records(name), n) ==> after.has_bin(g, n)
                    == c.has_bin(g, n)
            &&& forall|g: Seq<char>, n: Seq<char>|
                (g != group || !has_name(target.records(name), n)) && c.has_bin(g, n)
                    ==> after.bin(g, n) == c.bin(g, n)
        }),
{
    let target = TargetView::Directory { path, entries };
    let after = c.added(group, target, name);
    let records = target.records(name);
    let before = c.bins_of(group);
    lemma_bins_distinct(c, group);
    lemma_put_all(before, records);
    lemma_with_group(
        c,
        group,
        GroupView {
            index: target.ordinal(before.len(), put_all(before, records).len()) as usize,
            bins: put_all(before, records),
        },
    );
    assert forall|i: int| 0 <= i < entries.len() implies after.has_bin(
        group,
        #[trigger] entries[i].name->0,
    ) && after.bin(group, entries[i].name->0).source_dir == Some(path) && after.bin(
        group,
        entries[i].name->0,
    ).enabled by {
        assert(records[i].name == entries[i].name->0);
        assert(has_name(records, entries[i].name->0));
    }
}

/// What is found after a rename: the record under its new name, as it was
/// but for the name; nothing under the old name; under every other name,
/// and in every other group, what was found before.
pub proof fn renamed_record_is_found(
    c: ConfigView,
    group: Seq<char>,
    old_name: Seq<char>,
    new_name: Seq<char>,
)
    requires
        c.wf(),
        c.rename_error(group, old_name, new_name) is None,
    ensures
        ({
            let after = c.renamed(group, old_name, new_name);
            &&& after.has_bin(group, new_name)
            &&& after.bin(group, new_name) == BinView { name: new_name, ..c.bin(group, old_name) }
            &&& new_name != old_name
            &&& !after.has_bin(group, old_name)
            &&& forall|g: Seq<char>, n: Seq<char>|
                g != group || (n != old_name && n != new_name) ==> after.has_bin(g, n)
                    == c.has_bin(g, n)
            &&& forall|g: Seq<char>, n: Seq<char>|
                (g != group || (n != old_name && n != new_name)) && c.has_bin(g, n) ==> after.bin(
                    g,
                    n,
                ) == c.bin(g, n)
        }),
{
    let bins = c.bins_of(group);
    let at = place_of(bins, old_name);
    let renamed = BinView { name: new_name, ..bins[at] };
    let after_bins = bins.update(at, renamed);
    lemma_bins_distinct(c, group);
    assert forall|i: int| 0 <= i < bins.len() && i != at implies bins[i].name != new_name by {
        lemma_place_of(bins, i);
    }
    lemma_projection_rename(bins, at, new_name);
    lemma_with_group(c, group, GroupView { bins: after_bins, ..c.group_of(group) });
    lemma_place_of(after_bins, at);
    assert forall|n: Seq<char>| n != old_name && n != new_name implies has_name(after_bins, n)
        == has_name(bins, n) && (has_name(bins, n) ==> after_bins[place_of(after_bins, n)]
        == bins[place_of(bins, n)]) by {
        if has_name(bins, n) {
            let p = place_of(bins, n);
            assert(after_bins[p].name == n);
            lemma_place_of(after_bins, p);
        }
        if has_name(after_bins, n) {
            let p = place_of(after_bins, n);
            assert(bins[p].name == n);
        }
    }
    if new_name != old_name && has_name(after_bins, old_name) {
        let p = place_of(after_bins, old_name);
        lemma_place_of(bins, p);
    }
}

/// What is found after a record was removed by its name: nothing under
/// that name; under every other name, and in every other group, what was
/// found before. Where the record was the last of its group and `delete`
/// was asked for, the group is gone too.
pub proof fn removed_record_is_gone(c: ConfigView, group: Seq<char>, name: Seq<char>, delete: bool)
    requires
        c.wf(),
        !looks_like_path(name),
    ensures
        ({
            let after = c.removed(group, Some(name), delete);
            &&& !after.has_bin(group, name)
            &&& forall|g: Seq<char>, n: Seq<char>|
                g != group || n != name ==> after.has_bin(g, n) == c.has_bin(g, n)
            &&& forall|g: Seq<char>, n: Seq<char>|
                (g != group || n != name) && c.has_bin(g, n) ==> after.bin(g, n) == c.bin(g, n)
            &&& after.has_group(group) == (c.has_group(group) && !(delete && c.has_bin(
                group,
                name,
            ) && c.bins_of(group).len() == 1))
        }),
{
    let bins = c.bins_of(group);
    removal_leaves_what_stays(c, group, Some(name), delete);
    lemma_bins_distinct(c, group);
    if has_name(bins, name) {
        let at = place_of(bins, name);
        lemma_remove(bins, at);
    }
}

/// What is found after the records of a source directory were removed: no
/// record of the group that was imported from it, and every other record
/// where it was. Where no record stays and `delete` was asked for, the
/// group is gone too.
pub proof fn removed_source_is_gone(c: ConfigView, group: Seq<char>, dir: Seq<char>, delete: bool)
    requires
        c.wf(),
        looks_like_path(dir),
    ensures
        ({
            let after = c.removed(group, Some(dir), delete);
            &&& forall|n: Seq<char>|
                after.has_bin(group, n) == (c.has_bin(group, n) && !tagged(c.bin(group, n), dir))
            &&& forall|n: Seq<char>|
                after.has_bin(group, n) ==> after.bin(group, n) == c.bin(group, n)
            &&& forall|g: Seq<char>, n: Seq<char>|
                g != group ==> after.has_bin(g, n) == c.has_bin(g, n) && after.bin(g, n) == c.bin(
                    g,
                    n,
                )
        }),
{
    let bins = c.bins_of(group);
    removal_leaves_what_stays(c, group, Some(dir), delete);
    lemma_bins_distinct(c, group);
    lemma_filter_names(bins, |b: BinView| !tagged(b, dir));
}

/// What is found after a group was deleted: nothing in that group, which
/// is no longer registered, and in every other group what was found
/// before.
pub proof fn deleted_group_is_gone(c: ConfigView, group: Seq<char>)
    requires
        c.wf(),
    ensures
        ({
            let after = c.removed(group, None, true);
            &&& !after.has_group(group)
            &&& forall|n: Seq<char>| !after.has_bin(group, n)
            &&& forall|g: Seq<char>| g != group ==> after.has_group(g) == c.has_group(g)
            &&& forall|g: Seq<char>, n: Seq<char>|
                g != group ==> after.has_bin(g, n) == c.has_bin(g, n) && after.bin(g, n) == c.bin(
                    g,
                    n,
                )
        }),
{
    removal_leaves_what_stays(c, group, None, true);
}

/// A rename onto a name that the group holds already is refused as a
/// collision and changes nothing, be the name that of another record or of
/// the record itself: the record is still found under its old name, and
/// what is found under the new name is the record that held that name
/// before.
pub proof fn rename_collision_keeps_records(
    c: ConfigView,
    group: Seq<char>,
    old_name: Seq<char>,
    new_name: Seq<char>,
)
    requires
        c.wf(),
        c.has_bin(group, old_name),
        c.has_bin(group, new_name),
    ensures
        ({
            let step = Step::Rename { group, old_name, new_name };
            let after = c.after(step);
            &&& c.step_error(step) == Some(ErrorView::NameCollision { group, name: new_name })
            &&& c.ops_of(step) == Seq::<LinkOpView>::empty()
            &&& after == c
            &&& after.has_bin(group, old_name)
            &&& after.bin(group, old_name) == c.bin(group, old_name)
            &&& after.bin(group, old_name).name == old_name
            &&& after.has_bin(group, new_name)
            &&& after.bin(group, new_name) == c.bin(group, new_name)
            &&& new_name != old_name ==> after.bin(group, new_name) != c.bin(group, old_name)
        }),
{
    assert(c.has_group(group)) by {
        if !c.has_group(group) {
            assert(c.bins_of(group) =~= Seq::<BinView>::empty());
        }
    }
}

/// Disabling a record and enabling it again brings its link back. In the
/// active group the managed directory does not hold the record's name
/// after the first step and holds it after the second, pointing at the
/// record's path, with nothing else changed; in any other group no link is
/// touched. For a record that was enabled at the start, the registry is as
/// it was, and so is the directory.
pub proof fn disable_then_enable_restores_link(c: ConfigView, group: Seq<char>, name: Seq<char>)
    requires
        c.wf(),
        c.lookup_error(group, name) is None,
    ensures
        ({
            let off = c.with_enabled(group, name, false);
            let on = off.with_enabled(group, name, true);
            let between = apply_ops(c.projection(), c.enable_ops(group, name, false));
            let dir = apply_ops(between, off.enable_ops(group, name, true));
            &&& off.lookup_error(group, name) is None
            &&& on == c.with_enabled(group, name, true)
            &&& c.active_group == group ==> {
                &&& !between.contains_key(name)
                &&& dir.contains_key(name)
                &&& dir[name] == c.bin(group, name).path
                &&& dir == c.projection().insert(name, c.bin(group, name).path)
            }
            &&& c.active_group != group ==> between == c.projection() && dir == c.projection()
            &&& c.bin(group, name).enabled ==> dir == c.projection() && on == c
        }),
{
    let bins = c.bins_of(group);
    let at = place_of(bins, name);
    let off = c.with_enabled(group, name, false);
    let on = off.with_enabled(group, name, true);
    let unflagged = BinView { enabled: false, ..bins[at] };
    let flagged = BinView { enabled: true, ..bins[at] };
    let place = c.group_place(group);
    lemma_bins_distinct(c, group);
    lemma_place_of(bins, at);
    lemma_group_place(c, place);

    set_enabled_keeps_links(c, group, name, false);
    lemma_with_group(c, group, GroupView { bins: bins.update(at, unflagged), ..c.group_of(group) });
    let off_bins = off.bins_of(group);
    assert(off_bins == bins.update(at, unflagged));
    assert(off_bins[at].name == name);
    lemma_place_of(off_bins, at);
    lemma_group_place(off, place);
    assert(put(bins, unflagged) == bins.update(at, unflagged));
    lemma_projection_put(bins, unflagged);

    set_enabled_keeps_links(off, group, name, true);
    lemma_with_group(
        off,
        group,
        GroupView { bins: off_bins.update(at, flagged), ..off.group_of(group) },
    );
    assert(off_bins.update(at, BinView { enabled: true, ..off_bins[at] }) =~= bins.update(
        at,
        flagged,
    ));
    assert(put(off_bins, flagged) == off_bins.update(at, flagged));
    lemma_projection_put(off_bins, flagged);
    if c.active_group == group {
        assert(on.projection() =~= c.projection().insert(name, bins[at].path));
    }

    lemma_with_group(c, group, GroupView { bins: bins.update(at, flagged), ..c.group_of(group) });
    assert(on.groups =~= c.with_enabled(group, name, true).groups);
    if bins[at].enabled {
        assert(bins.update(at, flagged) =~= bins);
        assert(on.groups =~= c.groups);
        if c.active_group == group {
            assert(c.projection().insert(name, bins[at].path) =~= c.projection());
        }
    }
}

/// A switch to a group that is not registered, and is not the active one,
/// is refused as not found and changes nothing: the active group stays, no
/// link operation is asked for, and the managed directory stays as it is.
pub proof fn switch_to_missing_group_changes_nothing(
    c: ConfigView,
    target: Seq<char>,
    dir: Map<Seq<char>, Seq<char>>,
)
    requires
        !c.has_group(target),
        target != c.active_group,
    ensures
        ({
            let step = Step::Switch { to: target };
            &&& c.step_error(step) == Some(ErrorView::NotFound { group: target, name: None })
            &&& c.after(step) == c
            &&& c.after(step).active_group == c.active_group
            &&& apply_ops(dir, c.ops_of(step)) == dir
        }),
{
}

/// Whatever steps are taken, in whatever order, accepted or refused, the
/// registry stays well formed and the managed directory stays in step: the
/// operations of all the steps, carried out on a directory that shows the
/// enabled records of the active group at the start, leave it showing the
/// enabled records of the active group at the end.
pub proof fn links_follow_every_step(c: ConfigView, steps: Seq<Step>)
    requires
        c.wf(),
    ensures
        c.after_all(steps).wf(),
        apply_ops(c.projection(), c.ops_of_all(steps)) == c.after_all(steps).projection(),
    decreases steps.len(),
{
    if steps.len() > 0 {
        let earlier = steps.drop_last();
        let step = steps.last();
        links_follow_every_step(c, earlier);
        let mid = c.after_all(earlier);
        lemma_apply_ops_concat(c.projection(), c.ops_of_all(earlier), mid.ops_of(step));
        step_keeps_links(mid, step);
    }
}

/// One step keeps the registry well formed and the managed directory in
/// step.
pub proof fn step_keeps_links(c: ConfigView, step: Step)
    requires
        c.wf(),
    ensures
        c.after(step).wf(),
        apply_ops(c.projection(), c.ops_of(step)) == c.after(step).projection(),
{
    if c.step_error(step) is None {
        match step {
            Step::Add { group, target, alias } => add_keeps_links(c, group, target, alias),
            Step::Remove { group, which, delete } => remove_keeps_links(c, group, which, delete),
            Step::Rename { group, old_name, new_name } => rename_keeps_links(
                c,
                group,
                old_name,
                new_name,
            ),
            Step::SetEnabled { group, name, enabled } => set_enabled_keeps_links(
                c,
                group,
                name,
                enabled,
            ),
            Step::Switch { to } => switch_keeps_links(c, to),
        }
    }
}

/// A mutation of a group that is not active asks for no link operation,
/// whatever the mutation.
pub proof fn other_groups_touch_no_link(c: ConfigView, step: Step)
    requires
        match step {
            Step::Add { group, target, alias } => group != c.active_group,
            Step::Remove { group, which, delete } => group != c.active_group,
            Step::Rename { group, old_name, new_name } => group != c.active_group,
            Step::SetEnabled { group, name, enabled } => group != c.active_group,
            Step::Switch { to } => false,
        },
    ensures
        c.ops_of(step) == Seq::<LinkOpView>::empty(),
{
}

/// Whether a record is found does not depend on its flag: setting the flag
/// of a record, to either value, leaves every record of the registry to be
/// found where it was, with everything but that one flag as it was.
pub proof fn lookup_ignores_flag(
    c: ConfigView,
    group: Seq<char>,
    name: Seq<char>,
    enabled: bool,
    other_group: Seq<char>,
    other_name: Seq<char>,
)
    requires
        c.wf(),
        c.lookup_error(group, name) is None,
    ensures
        ({
            let after = c.with_enabled(group, name, enabled);
            &&& after.has_bin(other_group, other_name) == c.has_bin(other_group, other_name)
            &&& after.lookup_error(other_group, other_name) == c.lookup_error(
                other_group,
                other_name,
            )
            &&& c.has_bin(other_group, other_name) ==> after.bin(other_group, other_name)
                == if group == other_group && name == other_name {
                BinView { enabled, ..c.bin(group, name) }
            } else {
                c.bin(other_group, other_name)
            }
        }),
{
    let bins = c.bins_of(group);
    let at = place_of(bins, name);
    let flagged = BinView { enabled, ..bins[at] };
    lemma_bins_distinct(c, group);
    assert(put(bins, flagged) == bins.update(at, flagged));
    lemma_put(bins, flagged);
    lemma_with_group(c, group, GroupView { bins: bins.update(at, flagged), ..c.group_of(group) });
}

/// A registry that is stored and restored is the registry that it was.
pub proof fn restored_is_what_was_stored(c: ConfigView)
    requires
        c.wf(),
    ensures
        c.stored().restored() == c,
{
    lemma_restored_upto(c, c.groups.len() as int);
    assert(c.groups.take(c.groups.len() as int) =~= c.groups);
}

/// Whatever was stored, what is restored from it is well formed.
pub proof fn restored_is_well_formed(stored: StoredConfigView, count: int)
    requires
        0 <= count <= stored.groups.len(),
    ensures
        stored.restored_upto(count).wf(),
    decreases count,
{
    if count > 0 {
        restored_is_well_formed(stored, count - 1);
        let group = stored.groups[count - 1].1;
        let records = group.bins.map_values(|e: (Seq<char>, StoredBinView)| filed(e));
        lemma_put_all(Seq::empty(), records);
        lemma_with_group(
            stored.restored_upto(count - 1),
            stored.groups[count - 1].0,
            group.restored(),
        );
    }
}

} // verus!

//! What the proofs about the registry rest on: how looking a name up, the
//! projection of a group and the effect of link operations change when
//! records are put, renamed, filtered or taken away.

use vstd::prelude::*;
use crate::links::{
    apply_op, apply_ops, lemma_apply_ops_single, LinkOpView,
};
use crate::model::{
    distinct_names, filed, from_source, group_hits, has_name, installs, leaving, links,
    looks_like_path, not_from_source, place_of, projection_of, put, put_all, staying, tagged,
    uninstalls, without_names, BinView, ConfigView, GroupView, NamedGroup, StoredBinView,
};

verus! {

/// Among records with distinct names, each name leads to its own place.
pub proof fn lemma_place_of(bins: Seq<BinView>, i: int)
    requires
        distinct_names(bins),
        0 <= i < bins.len(),
    ensures
        has_name(bins, bins[i].name),
        place_of(bins, bins[i].name) == i,
{
    let name = bins[i].name;
    assert(0 <= i < bins.len() && bins[i].name == name);
    let p = place_of(bins, name);
    assert(0 <= p < bins.len() && bins[p].name == name);
    if p < i {
        assert(bins[p].name != bins[i].name);
    } else if i < p {
        assert(bins[i].name != bins[p].name);
    }
}

/// Putting a record keeps names distinct, finds the record under its name
/// and leaves every other name as it was.
pub proof fn lemma_put(bins: Seq<BinView>, bin: BinView)
    requires
        distinct_names(bins),
    ensures
        distinct_names(put(bins, bin)),
        has_name(put(bins, bin), bin.name),
        put(bins, bin)[place_of(put(bins, bin), bin.name)] == bin,
        forall|n: Seq<char>|
            n != bin.name ==> has_name(put(bins, bin), n) == has_name(bins, n),
        forall|n: Seq<char>|
            n != bin.name && has_name(bins, n) ==> put(bins, bin)[place_of(put(bins, bin), n)]
                == bins[place_of(bins, n)],
{
    let after = put(bins, bin);
    let at = if has_name(bins, bin.name) {
        place_of(bins, bin.name)
    } else {
        bins.len() as int
    };
    assert(after.len() > at >= 0 && after[at] == bin);
    assert forall|i: int| 0 <= i < after.len() && i != at implies i < bins.len() && after[i]
        == bins[i] && after[i].name != bin.name by {
        if has_name(bins, bin.name) {
            lemma_place_of(bins, i);
        } else {
        }
    }
    assert(distinct_names(after)) by {
        assert forall|i: int, j: int| 0 <= i < j < after.len() implies after[i].name
            != after[j].name by {
            if i != at && j != at {
                assert(bins[i].name != bins[j].name);
            }
        }
    }
    lemma_place_of(after, at);
    assert forall|n: Seq<char>| n != bin.name implies has_name(after, n) == has_name(bins, n) && (
    has_name(bins, n) ==> after[place_of(after, n)] == bins[place_of(bins, n)]) by {
        if has_name(bins, n) {
            let p = place_of(bins, n);
            assert(after[p].name == n);
            lemma_place_of(after, p);
        }
        if has_name(after, n) {
            let p = place_of(after, n);
            assert(bins[p].name == n);
        }
    }
}

/// What putting a record does to the links of a group.
pub proof fn lemma_projection_put(bins: Seq<BinView>, bin: BinView)
    requires
        distinct_names(bins),
    ensures
        projection_of(put(bins, bin)) == if bin.enabled {
            projection_of(bins).insert(bin.name, bin.path)
        } else {
            projection_of(bins).remove(bin.name)
        },
{
    lemma_put(bins, bin);
    let after = put(bins, bin);
    let expected = if bin.enabled {
        projection_of(bins).insert(bin.name, bin.path)
    } else {
        projection_of(bins).remove(bin.name)
    };
    assert forall|n: Seq<char>|
        projection_of(after).contains_key(n) == expected.contains_key(n) && (
        expected.contains_key(n) ==> projection_of(after)[n] == expected[n]) by {
        if n != bin.name && has_name(bins, n) {
            assert(after[place_of(after, n)] == bins[place_of(bins, n)]);
        }
    }
    assert(projection_of(after) =~= expected);
}

/// Taking a record away keeps names distinct and takes its name away; every
/// other name stays with its record.
pub proof fn lemma_remove(bins: Seq<BinView>, at: int)
    requires
        distinct_names(bins),
        0 <= at < bins.len(),
    ensures
        distinct_names(bins.remove(at)),
        !has_name(bins.remove(at), bins[at].name),
        forall|n: Seq<char>|
            n != bins[at].name ==> has_name(bins.remove(at), n) == has_name(bins, n),
        forall|n: Seq<char>|
            n != bins[at].name && has_name(bins, n) ==> bins.remove(at)[place_of(
                bins.remove(at),
                n,
            )] == bins[place_of(bins, n)],
        projection_of(bins.remove(at)) == projection_of(bins).remove(bins[at].name),
{
    let after = bins.remove(at);
    assert forall|i: int| 0 <= i < after.len() implies after[i] == bins[if i < at {
        i
    } else {
        i + 1
    }] by {}
    assert(distinct_names(after)) by {
        assert forall|i: int, j: int| 0 <= i < j < after.len() implies after[i].name
            != after[j].name by {
            let i2 = if i < at { i } else { i + 1 };
            let j2 = if j < at { j } else { j + 1 };
            assert(bins[i2].name != bins[j2].name);
        }
    }
    assert(!has_name(after, bins[at].name)) by {
        if has_name(after, bins[at].name) {
            let p = place_of(after, bins[at].name);
            let q = if p < at { p } else { p + 1 };
            lemma_place_of(bins, q);
            lemma_place_of(bins, at);
        }
    }
    assert forall|n: Seq<char>| n != bins[at].name implies has_name(after, n) == has_name(bins, n)
        && (has_name(bins, n) ==> after[place_of(after, n)] == bins[place_of(bins, n)]) by {
        if has_name(bins, n) {
            let p = place_of(bins, n);
            let q = if p < at { p } else { p - 1 };
            assert(after[q].name == n);
            lemma_place_of(after, q);
        }
        if has_name(after, n) {
            let p = place_of(after, n);
            let q = if p < at { p } else { p + 1 };
            assert(bins[q].name == n);
        }
    }
    lemma_place_of(bins, at);
    assert(projection_of(after) =~= projection_of(bins).remove(bins[at].name));
}

/// Giving a record a name that no other record has keeps names distinct and
/// moves its link, if it has one, to the new name.
pub proof fn lemma_projection_rename(bins: Seq<BinView>, at: int, new_name: Seq<char>)
    requires
        distinct_names(bins),
        0 <= at < bins.len(),
        forall|i: int| 0 <= i < bins.len() && i != at ==> bins[i].name != new_name,
    ensures
        distinct_names(bins.update(at, BinView { name: new_name, ..bins[at] })),
        projection_of(bins.update(at, BinView { name: new_name, ..bins[at] }))
            == if bins[at].enabled {
            projection_of(bins).remove(bins[at].name).insert(new_name, bins[at].path)
        } else {
            projection_of(bins).remove(bins[at].name)
        },
{
    let renamed = BinView { name: new_name, ..bins[at] };
    let after = bins.update(at, renamed);
    let expected = if bins[at].enabled {
        projection_of(bins).remove(bins[at].name).insert(new_name, bins[at].path)
    } else {
        projection_of(bins).remove(bins[at].name)
    };
    assert(distinct_names(after)) by {
        assert forall|i: int, j: int| 0 <= i < j < after.len() implies after[i].name
            != after[j].name by {
            if i != at && j != at {
                assert(bins[i].name != bins[j].name);
            }
        }
    }
    lemma_place_of(bins, at);
    lemma_place_of(after, at);
    assert forall|n: Seq<char>|
        (#[trigger] projection_of(after).contains_key(n)) == expected.contains_key(n) && (
        expected.contains_key(n) ==> projection_of(after)[n] == expected[n]) by {
        if n == new_name {
            if has_name(bins, n) {
                let p = place_of(bins, n);
                assert(p == at);
            }
        } else if n == bins[at].name {
            if has_name(after, n) {
                let p = place_of(after, n);
                assert(p != at);
                lemma_place_of(bins, p);
            }
        } else {
            if has_name(bins, n) {
                let p = place_of(bins, n);
                assert(after[p].name == n);
                lemma_place_of(after, p);
            }
            if has_name(after, n) {
                let p = place_of(after, n);
                assert(bins[p].name == n);
                lemma_place_of(bins, p);
            }
        }
    }
    assert(projection_of(after) =~= expected);
}

/// Putting records, one after the other, keeps names distinct; every name
/// of the new records is held afterwards, by a record of the new ones, and
/// every other name stays with its record.
pub proof fn lemma_put_all(bins: Seq<BinView>, more: Seq<BinView>)
    requires
        distinct_names(bins),
    ensures
        distinct_names(put_all(bins, more)),
        forall|n: Seq<char>|
            has_name(more, n) ==> has_name(put_all(bins, more), n) && exists|i: int|
                0 <= i < more.len() && more[i] == put_all(bins, more)[place_of(
                    put_all(bins, more),
                    n,
                )],
        forall|n: Seq<char>|
            !has_name(more, n) ==> has_name(put_all(bins, more), n) == has_name(bins, n),
        forall|n: Seq<char>|
            !has_name(more, n) && has_name(bins, n) ==> put_all(bins, more)[place_of(
                put_all(bins, more),
                n,
            )] == bins[place_of(bins, n)],
    decreases more.len(),
{
    if more.len() > 0 {
        let rest = more.drop_last();
        let last = more.last();
        let mid = put_all(bins, rest);
        let after = put_all(bins, more);
        lemma_put_all(bins, rest);
        lemma_put(mid, last);
        assert forall|n: Seq<char>| has_name(more, n) == (has_name(rest, n) || n == last.name) by {
            if has_name(rest, n) {
                let p = place_of(rest, n);
                assert(more[p].name == n);
            }
            if n == last.name {
                assert(more[more.len() - 1].name == n);
            }
            if has_name(more, n) {
                let p = place_of(more, n);
                if p < rest.len() {
                    assert(rest[p].name == n);
                }
            }
        }
        assert forall|n: Seq<char>| has_name(more, n) implies has_name(after, n) && exists|i: int|
            0 <= i < more.len() && more[i] == after[place_of(after, n)] by {
            if n == last.name {
                assert(more[more.len() - 1] == after[place_of(after, n)]);
            } else {
                let i = choose|i: int| 0 <= i < rest.len() && rest[i] == mid[place_of(mid, n)];
                assert(more[i] == after[place_of(after, n)]);
            }
        }
    } else {
        assert forall|n: Seq<char>| !has_name(more, n) by {}
    }
}

/// Putting enabled records, one after the other, keeps names distinct, and
/// the links of the group follow the installs of those records.
pub proof fn lemma_projection_put_all(bins: Seq<BinView>, more: Seq<BinView>)
    requires
        distinct_names(bins),
        forall|i: int| 0 <= i < more.len() ==> more[i].enabled,
    ensures
        distinct_names(put_all(bins, more)),
        projection_of(put_all(bins, more)) == apply_ops(projection_of(bins), installs(more)),
    decreases more.len(),
{
    if more.len() == 0 {
        reveal(Seq::filter);
        assert(installs(more) =~= Seq::<LinkOpView>::empty());
    } else {
        let rest = more.drop_last();
        let last = more.last();
        lemma_projection_put_all(bins, rest);
        lemma_put(put_all(bins, rest), last);
        lemma_projection_put(put_all(bins, rest), last);
        lemma_installs_push(rest, last);
        assert(more =~= rest.push(last));
        assert(installs(more).drop_last() =~= installs(rest));
        assert(installs(more).last() == last.link());
    }
}

/// Where every record is enabled, the installs are the links of all.
pub proof fn lemma_installs_of_enabled(bins: Seq<BinView>)
    requires
        forall|i: int| 0 <= i < bins.len() ==> bins[i].enabled,
    ensures
        installs(bins) == links(bins),
    decreases bins.len(),
{
    reveal(Seq::filter);
    if bins.len() > 0 {
        lemma_installs_of_enabled(bins.drop_last());
        lemma_installs_push(bins.drop_last(), bins.last());
        assert(bins =~= bins.drop_last().push(bins.last()));
        assert(links(bins) =~= links(bins.drop_last()).push(bins.last().link()));
    } else {
        assert(installs(bins) =~= links(bins));
    }
}

/// The installs of a sequence that grew by one record.
pub proof fn lemma_installs_push(bins: Seq<BinView>, bin: BinView)
    ensures
        installs(bins.push(bin)) == installs(bins) + bin.install(),
{
    let on = |b: BinView| b.enabled;
    bins.lemma_filter_push(bin, on);
    if bin.enabled {
        assert(links(bins.filter(on).push(bin)) =~= links(bins.filter(on)) + seq![bin.link()]);
    } else {
        assert(installs(bins) + bin.install() =~= installs(bins));
    }
}

/// The uninstalls of a sequence that grew by one record.
pub proof fn lemma_uninstalls_push(bins: Seq<BinView>, bin: BinView)
    ensures
        uninstalls(bins.push(bin)) == uninstalls(bins).push(bin.uninstall()),
{
    assert(uninstalls(bins.push(bin)) =~= uninstalls(bins).push(bin.uninstall()));
}

/// Uninstalling every record of `bins` takes exactly their names out of a
/// directory.
pub proof fn lemma_uninstall_all(dir: Map<Seq<char>, Seq<char>>, bins: Seq<BinView>)
    ensures
        apply_ops(dir, uninstalls(bins)) == without_names(dir, bins),
    decreases bins.len(),
{
    if bins.len() == 0 {
        assert(uninstalls(bins) =~= Seq::<LinkOpView>::empty());
        assert(without_names(dir, bins) =~= dir);
    } else {
        let rest = bins.drop_last();
        let last = bins.last();
        lemma_uninstall_all(dir, rest);
        assert(bins =~= rest.push(last));
        lemma_uninstalls_push(rest, last);
        assert(uninstalls(bins).drop_last() =~= uninstalls(rest));
        assert(uninstalls(bins).last() == last.uninstall());
        assert forall|n: Seq<char>| has_name(bins, n) == (has_name(rest, n) || n == last.name) by {
            if has_name(rest, n) {
                let p = place_of(rest, n);
                assert(bins[p].name == n);
            }
            if n == last.name {
                assert(bins[bins.len() - 1].name == n);
            }
            if has_name(bins, n) {
                let p = place_of(bins, n);
                if p < rest.len() {
                    assert(rest[p].name == n);
                }
            }
        }
        assert(apply_op(without_names(dir, rest), last.uninstall()) =~= without_names(dir, bins));
    }
}

/// A group's own uninstalls empty a directory that shows the group.
pub proof fn lemma_uninstall_own(bins: Seq<BinView>)
    ensures
        apply_ops(projection_of(bins), uninstalls(bins)) == Map::<Seq<char>, Seq<char>>::empty(),
{
    lemma_uninstall_all(projection_of(bins), bins);
    assert(without_names(projection_of(bins), bins) =~= Map::<Seq<char>, Seq<char>>::empty());
}

/// Installing every enabled record of `bins` lays the links of `bins` over
/// a directory.
pub proof fn lemma_install_all(dir: Map<Seq<char>, Seq<char>>, bins: Seq<BinView>)
    requires
        distinct_names(bins),
    ensures
        apply_ops(dir, installs(bins)) == dir.union_prefer_right(projection_of(bins)),
    decreases bins.len(),
{
    if bins.len() == 0 {
        reveal(Seq::filter);
        assert(installs(bins) =~= Seq::<LinkOpView>::empty());
        assert(dir.union_prefer_right(projection_of(bins)) =~= dir);
    } else {
        let rest = bins.drop_last();
        let last = bins.last();
        assert(bins =~= rest.push(last));
        assert(distinct_names(rest)) by {
            assert forall|i: int, j: int| 0 <= i < j < rest.len() implies rest[i].name
                != rest[j].name by {
                assert(bins[i].name != bins[j].name);
            }
        }
        lemma_install_all(dir, rest);
        lemma_installs_push(rest, last);
        assert(!has_name(rest, last.name)) by {
            if has_name(rest, last.name) {
                let p = place_of(rest, last.name);
                assert(bins[p].name != bins[bins.len() - 1].name);
            }
        }
        assert(put(rest, last) == bins);
        lemma_projection_put(rest, last);
        if last.enabled {
            let op = last.link();
            assert(installs(bins).drop_last() =~= installs(rest));
            assert(installs(bins).last() == op);
            assert(apply_op(dir.union_prefer_right(projection_of(rest)), op)
                =~= dir.union_prefer_right(projection_of(bins)));
        } else {
            assert(installs(bins) =~= installs(rest));
            assert(projection_of(rest).remove(last.name) =~= projection_of(rest));
        }
    }
}

/// Filtering records with distinct names keeps the names distinct; a name
/// is kept exactly when its record passes, and it stays with its record.
pub proof fn lemma_filter_names(bins: Seq<BinView>, keep: spec_fn(BinView) -> bool)
    requires
        distinct_names(bins),
    ensures
        distinct_names(bins.filter(keep)),
        forall|n: Seq<char>|
            has_name(bins.filter(keep), n) == (has_name(bins, n) && keep(
                bins[place_of(bins, n)],
            )),
        forall|n: Seq<char>|
            has_name(bins.filter(keep), n) ==> bins.filter(keep)[place_of(bins.filter(keep), n)]
                == bins[place_of(bins, n)],
    decreases bins.len(),
{
    reveal(Seq::filter);
    if bins.len() == 0 {
    } else {
        let rest = bins.drop_last();
        let last = bins.last();
        assert(bins =~= rest.push(last));
        assert(distinct_names(rest)) by {
            assert forall|i: int, j: int| 0 <= i < j < rest.len() implies rest[i].name
                != rest[j].name by {
                assert(bins[i].name != bins[j].name);
            }
        }
        lemma_filter_names(rest, keep);
        let kept_rest = rest.filter(keep);
        let kept = bins.filter(keep);
        assert(!has_name(rest, last.name)) by {
            if has_name(rest, last.name) {
                let p = place_of(rest, last.name);
                assert(bins[p].name != bins[bins.len() - 1].name);
            }
        }
        assert(put(rest, last) == bins);
        lemma_put(rest, last);
        if keep(last) {
            assert(kept == kept_rest.push(last));
            assert(put(kept_rest, last) == kept);
            lemma_put(kept_rest, last);
        } else {
            assert(kept == kept_rest);
        }
        assert forall|n: Seq<char>| has_name(kept, n) == (has_name(bins, n) && keep(
            bins[place_of(bins, n)],
        )) && (has_name(kept, n) ==> kept[place_of(kept, n)] == bins[place_of(bins, n)]) by {
            if n == last.name {
            } else {
                if has_name(rest, n) {
                    assert(bins[place_of(bins, n)] == rest[place_of(rest, n)]);
                }
            }
        }
    }
}

/// Taking away the records that came from a directory, and uninstalling
/// them, keeps a directory that showed the group showing it.
pub proof fn lemma_projection_without_source(bins: Seq<BinView>, dir: Seq<char>)
    requires
        distinct_names(bins),
    ensures
        distinct_names(not_from_source(bins, dir)),
        apply_ops(projection_of(bins), uninstalls(from_source(bins, dir))) == projection_of(
            not_from_source(bins, dir),
        ),
{
    let gone = |b: BinView| tagged(b, dir);
    let stay = |b: BinView| !tagged(b, dir);
    lemma_filter_names(bins, gone);
    lemma_filter_names(bins, stay);
    lemma_uninstall_all(projection_of(bins), from_source(bins, dir));
    assert(without_names(projection_of(bins), from_source(bins, dir)) =~= projection_of(
        not_from_source(bins, dir),
    ));
}

/// The hits of a group that grew by one record.
pub proof fn lemma_group_hits_push(
    name: Seq<char>,
    group: GroupView,
    bin: BinView,
    query: Seq<char>,
)
    ensures
        group_hits(
            NamedGroup { name, group: GroupView { bins: group.bins.push(bin), ..group } },
            query,
        ) == if bin.matches(query) {
            group_hits(NamedGroup { name, group }, query).push((name, bin.name, bin))
        } else {
            group_hits(NamedGroup { name, group }, query)
        },
{
    let hit = |b: BinView| b.matches(query);
    let row = |b: BinView| (name, b.name, b);
    group.bins.lemma_filter_push(bin, hit);
    if bin.matches(query) {
        assert(group.bins.filter(hit).push(bin).map_values(row) =~= group.bins.filter(
            hit,
        ).map_values(row).push(row(bin)));
    }
}

/// Among groups with distinct names, each name leads to its own place.
pub proof fn lemma_group_place(c: ConfigView, i: int)
    requires
        c.wf(),
        0 <= i < c.groups.len(),
    ensures
        c.has_group(c.groups[i].name),
        c.group_place(c.groups[i].name) == i,
        c.group_of(c.groups[i].name) == c.groups[i].group,
{
    let name = c.groups[i].name;
    assert(0 <= i < c.groups.len() && c.groups[i].name == name);
    let p = c.group_place(name);
    if p < i {
        assert(c.groups[p].name != c.groups[i].name);
    } else if i < p {
        assert(c.groups[i].name != c.groups[p].name);
    }
}

/// Registering a group keeps the registry well formed, finds the group
/// under its name and leaves every other group as it was.
pub proof fn lemma_with_group(c: ConfigView, name: Seq<char>, group: GroupView)
    requires
        c.wf(),
        distinct_names(group.bins),
    ensures
        c.with_group(name, group).wf(),
        c.with_group(name, group).has_group(name),
        c.with_group(name, group).group_of(name) == group,
        forall|other: Seq<char>|
            other != name ==> c.with_group(name, group).has_group(other) == c.has_group(other),
        forall|other: Seq<char>|
            other != name ==> c.with_group(name, group).group_of(other) == c.group_of(other),
{
    let after = c.with_group(name, group);
    let at = if c.has_group(name) {
        c.group_place(name)
    } else {
        c.groups.len() as int
    };
    assert(0 <= at < after.groups.len() && after.groups[at] == NamedGroup { name, group });
    assert forall|i: int| 0 <= i < after.groups.len() && i != at implies i < c.groups.len()
        && after.groups[i] == c.groups[i] && after.groups[i].name != name by {
        if c.has_group(name) {
            lemma_group_place(c, i);
        }
    }
    assert(after.wf()) by {
        assert forall|i: int, j: int| 0 <= i < j < after.groups.len() implies after.groups[i].name
            != after.groups[j].name by {
            if i != at && j != at {
                assert(c.groups[i].name != c.groups[j].name);
            }
        }
        assert forall|i: int| 0 <= i < after.groups.len() implies distinct_names(
            #[trigger] after.groups[i].group.bins,
        ) by {
            if i != at {
                assert(distinct_names(c.groups[i].group.bins));
            }
        }
    }
    lemma_group_place(after, at);
    assert forall|other: Seq<char>| other != name implies after.has_group(other) == c.has_group(
        other,
    ) && after.group_of(other) == c.group_of(other) by {
        if c.has_group(other) {
            let p = c.group_place(other);
            assert(after.groups[p].name == other);
            lemma_group_place(after, p);
        }
        if after.has_group(other) {
            let p = after.group_place(other);
            assert(c.groups[p].name == other);
            lemma_group_place(c, p);
        }
    }
}

/// The records of a registered group have distinct names.
pub proof fn lemma_bins_distinct(c: ConfigView, group: Seq<char>)
    requires
        c.wf(),
    ensures
        distinct_names(c.bins_of(group)),
{
    if c.has_group(group) {
        let p = c.group_place(group);
        assert(distinct_names(c.groups[p].group.bins));
    }
}

/// Taking a group away keeps the registry well formed and takes its name
/// away; every other group stays as it was.
pub proof fn lemma_without_group(c: ConfigView, at: int)
    requires
        c.wf(),
        0 <= at < c.groups.len(),
    ensures
        ({
            let after = ConfigView { groups: c.groups.remove(at), ..c };
            &&& after.wf()
            &&& !after.has_group(c.groups[at].name)
            &&& forall|other: Seq<char>|
                other != c.groups[at].name ==> after.has_group(other) == c.has_group(other)
            &&& forall|other: Seq<char>|
                other != c.groups[at].name ==> after.group_of(other) == c.group_of(other)
        }),
{
    let after = ConfigView { groups: c.groups.remove(at), ..c };
    let gone = c.groups[at].name;
    assert forall|i: int| 0 <= i < after.groups.len() implies after.groups[i] == c.groups[if i
        < at {
        i
    } else {
        i + 1
    }] by {}
    assert(after.wf()) by {
        assert forall|i: int, j: int| 0 <= i < j < after.groups.len() implies after.groups[i].name
            != after.groups[j].name by {
            let i2 = if i < at { i } else { i + 1 };
            let j2 = if j < at { j } else { j + 1 };
            assert(c.groups[i2].name != c.groups[j2].name);
        }
        assert forall|i: int| 0 <= i < after.groups.len() implies distinct_names(
            #[trigger] after.groups[i].group.bins,
        ) by {
            let i2 = if i < at { i } else { i + 1 };
            assert(distinct_names(c.groups[i2].group.bins));
        }
    }
    assert(!after.has_group(gone)) by {
        if after.has_group(gone) {
            let p = after.group_place(gone);
            let q = if p < at { p } else { p + 1 };
            lemma_group_place(c, q);
            lemma_group_place(c, at);
        }
    }
    assert forall|other: Seq<char>| other != gone implies after.has_group(other) == c.has_group(
        other,
    ) && after.group_of(other) == c.group_of(other) by {
        if c.has_group(other) {
            let p = c.group_place(other);
            let q = if p < at { p } else { p - 1 };
            assert(after.groups[q].name == other);
            lemma_group_place(after, q);
        }
        if after.has_group(other) {
            let p = after.group_place(other);
            let q = if p < at { p } else { p + 1 };
            assert(c.groups[q].name == other);
            lemma_group_place(c, q);
        }
    }
}

/// Putting records whose names are distinct into an empty group gives the
/// records as they are.
pub proof fn lemma_put_all_distinct(bins: Seq<BinView>)
    requires
        distinct_names(bins),
    ensures
        put_all(Seq::empty(), bins) == bins,
    decreases bins.len(),
{
    if bins.len() == 0 {
        assert(bins =~= Seq::<BinView>::empty());
    } else {
        let rest = bins.drop_last();
        let last = bins.last();
        assert(distinct_names(rest)) by {
            assert forall|i: int, j: int| 0 <= i < j < rest.len() implies rest[i].name
                != rest[j].name by {
                assert(bins[i].name != bins[j].name);
            }
        }
        lemma_put_all_distinct(rest);
        assert(!has_name(rest, last.name)) by {
            if has_name(rest, last.name) {
                let p = place_of(rest, last.name);
                assert(bins[p].name != bins[bins.len() - 1].name);
            }
        }
        assert(rest.push(last) =~= bins);
    }
}

/// A stored group is restored as the group that was stored.
pub proof fn lemma_group_restored(group: GroupView)
    requires
        distinct_names(group.bins),
    ensures
        group.stored().restored() == group,
{
    let records = group.stored().bins.map_values(|e: (Seq<char>, StoredBinView)| filed(e));
    assert(records =~= group.bins);
    lemma_put_all_distinct(group.bins);
}

/// The first stored groups are restored as the first groups that were
/// stored.
pub proof fn lemma_restored_upto(c: ConfigView, count: int)
    requires
        c.wf(),
        0 <= count <= c.groups.len(),
    ensures
        c.stored().restored_upto(count) == (ConfigView { groups: c.groups.take(count), ..c }),
    decreases count,
{
    let stored = c.stored();
    if count == 0 {
        assert(c.groups.take(0) =~= Seq::<NamedGroup>::empty());
    } else {
        lemma_restored_upto(c, count - 1);
        let before = ConfigView { groups: c.groups.take(count - 1), ..c };
        let next = c.groups[count - 1];
        assert(distinct_names(next.group.bins));
        lemma_group_restored(next.group);
        assert(!before.has_group(next.name)) by {
            if before.has_group(next.name) {
                let p = before.group_place(next.name);
                assert(c.groups[p].name != c.groups[count - 1].name);
            }
        }
        assert(before.groups.push(next) =~= c.groups.take(count));
    }
}

/// What a removal does to a group: the records that stay have distinct
/// names, and the uninstalls of those that leave keep a directory that
/// showed the group showing it.
pub proof fn lemma_leaving(bins: Seq<BinView>, name: Option<Seq<char>>, delete: bool)
    requires
        distinct_names(bins),
    ensures
        distinct_names(staying(bins, name, delete)),
        apply_ops(projection_of(bins), uninstalls(leaving(bins, name, delete))) == projection_of(
            staying(bins, name, delete),
        ),
{
    let none = Seq::<LinkOpView>::empty();
    match name {
        Some(n) => {
            if looks_like_path(n) {
                lemma_projection_without_source(bins, n);
            } else if has_name(bins, n) {
                let at = place_of(bins, n);
                lemma_remove(bins, at);
                assert(uninstalls(seq![bins[at]]) =~= seq![LinkOpView::Uninstall { name: n }]);
                lemma_apply_ops_single(projection_of(bins), LinkOpView::Uninstall { name: n });
            } else {
                assert(uninstalls(Seq::<BinView>::empty()) =~= none);
            }
        },
        None => {
            if delete {
                lemma_uninstall_own(bins);
                assert(projection_of(Seq::<BinView>::empty()) =~= Map::<
                    Seq<char>,
                    Seq<char>,
                >::empty());
            } else {
                assert(uninstalls(Seq::<BinView>::empty()) =~= none);
            }
        },
    }
}

/// A group without records loses none and keeps none.
pub proof fn lemma_leaving_nothing(name: Option<Seq<char>>, delete: bool)
    ensures
        leaving(Seq::empty(), name, delete) == Seq::<BinView>::empty(),
        staying(Seq::empty(), name, delete) == Seq::<BinView>::empty(),
{
    reveal(Seq::filter);
    let bins = Seq::<BinView>::empty();
    assert(leaving(bins, name, delete) =~= bins);
    assert(staying(bins, name, delete) =~= bins);
}

} // verus!

//! The registry laid out for display: groups in the order of their names,
//! each with its records numbered from one.

use vstd::prelude::*;
use crate::config::{bin_views, Bin, Config};
use crate::model::{BinView, ConfigView};
use crate::text::{
    comes_before, lemma_text_before_total, lemma_text_before_transitive, str_eq, text_before,
};

verus! {

/// One record of a listed group.
#[derive(Debug, PartialEq, Eq)]
pub struct Row {
    /// The place of the record in its group, counted from one.
    pub ordinal: usize,
    pub name: String,
    pub path: String,
    pub enabled: bool,
}

/// One listed group.
#[derive(Debug, PartialEq, Eq)]
pub struct Listing {
    pub group: String,
    /// Whether this is the active group.
    pub active: bool,
    pub rows: Vec<Row>,
}

/// A row over plain sequences.
pub struct RowView {
    pub ordinal: usize,
    pub name: Seq<char>,
    pub path: Seq<char>,
    pub enabled: bool,
}

/// A listed group over plain sequences.
pub struct ListingView {
    pub group: Seq<char>,
    pub active: bool,
    pub rows: Seq<RowView>,
}

impl View for Row {
    type V = RowView;

    open spec fn view(&self) -> RowView {
        RowView { ordinal: self.ordinal, name: self.name@, path: self.path@, enabled: self.enabled }
    }
}

impl View for Listing {
    type V = ListingView;

    open spec fn view(&self) -> ListingView {
        ListingView {
            group: self.group@,
            active: self.active,
            rows: self.rows@.map_values(|r: Row| r@),
        }
    }
}

/// The rows of a group: one per record, in the order of the records,
/// numbered from one.
pub open spec fn rows_of(bins: Seq<BinView>) -> Seq<RowView> {
    Seq::new(
        bins.len(),
        |i: int|
            RowView {
                ordinal: (i + 1) as usize,
                name: bins[i].name,
                path: bins[i].path,
                enabled: bins[i].enabled,
            },
    )
}

/// The listing of the group called `group`.
pub open spec fn listing_of(c: ConfigView, group: Seq<char>) -> ListingView {
    ListingView { group, active: group == c.active_group, rows: rows_of(c.bins_of(group)) }
}

/// Whether the group called `group` is listed: it is registered and, where
/// one group was asked for, it is that group.
pub open spec fn listed(c: ConfigView, only: Option<Seq<char>>, group: Seq<char>) -> bool {
    c.has_group(group) && (only is None || only == Some(group))
}

/// Some listing of `listings` is that of the group called `group`.
pub open spec fn lists(listings: Seq<Listing>, group: Seq<char>) -> bool {
    exists|i: int| 0 <= i < listings.len() && listings[i]@.group == group
}

/// `listings` lays the registry out: the groups that are listed, each once
/// and each before the next in the order of their names, every one with its
/// own listing.
pub open spec fn lays_out(c: ConfigView, only: Option<Seq<char>>, listings: Seq<Listing>) -> bool {
    &&& forall|i: int, j: int|
        0 <= i < j < listings.len() ==> text_before(listings[i]@.group, listings[j]@.group)
    &&& forall|n: Seq<char>| lists(listings, n) <==> listed(c, only, n)
    &&& forall|i: int|
        0 <= i < listings.len() ==> listings[i]@ == listing_of(c, listings[i]@.group)
}

/// Some name of `names` is `name`.
spec fn holds(names: Seq<String>, name: Seq<char>) -> bool {
    exists|k: int| 0 <= k < names.len() && names[k]@ == name
}

/// One of the first `upto` names is `name`, and it passes the filter.
spec fn picked(names: Seq<String>, upto: int, only: Option<Seq<char>>, name: Seq<char>) -> bool {
    exists|j: int| 0 <= j < upto && names[j]@ == name && (only is None || only == Some(name))
}

/// Each name comes before the next.
spec fn ascending(names: Seq<String>) -> bool {
    forall|a: int, b: int| 0 <= a < b < names.len() ==> text_before(names[a]@, names[b]@)
}

/// The rows of `bins`.
fn rows(bins: &Vec<Bin>) -> (rows: Vec<Row>)
    ensures
        rows@.map_values(|r: Row| r@) == rows_of(bin_views(bins@)),
{
    let mut rows: Vec<Row> = Vec::new();
    let mut i: usize = 0;
    while i < bins.len()
        invariant
            i <= bins.len(),
            rows@.len() == i,
            forall|k: int| 0 <= k < i ==> rows@[k]@ == rows_of(bin_views(bins@))[k],
        decreases bins.len() - i,
    {
        let bin = &bins[i];
        rows.push(
            Row {
                ordinal: i + 1,
                name: bin.name.clone(),
                path: bin.path.clone(),
                enabled: bin.enabled,
            },
        );
        i += 1;
    }
    assert(rows@.map_values(|r: Row| r@) =~= rows_of(bin_views(bins@)));
    rows
}

impl Config {
    /// The names of the groups to list, each before the next.
    fn names_in_order(&self, only: Option<&str>) -> (sorted: Vec<String>)
        requires
            self.wf(),
        ensures
            ascending(sorted@),
            forall|n: Seq<char>|
                holds(sorted@, n) <==> listed(
                    self@,
                    match only {
                        Some(o) => Some(o@),
                        None => None,
                    },
                    n,
                ),
    {
        let ghost filter: Option<Seq<char>> = match only {
            Some(o) => Some(o@),
            None => None,
        };
        let names = self.group_names();
        let mut sorted: Vec<String> = Vec::new();
        let mut i: usize = 0;
        while i < names.len()
            invariant
                i <= names.len(),
                self.wf(),
                names@.len() == self@.groups.len(),
                forall|k: int| 0 <= k < names@.len() ==> names@[k]@ == self@.groups[k].name,
                filter == match only {
                    Some(o) => Some(o@),
                    None => None,
                },
                ascending(sorted@),
                forall|n: Seq<char>| holds(sorted@, n) <==> picked(names@, i as int, filter, n),
            decreases names.len() - i,
        {
            let name = &names[i];
            let take = match only {
                Some(o) => str_eq(o, name.as_str()),
                None => true,
            };
            let ghost before = sorted@;
            if take {
                let mut p: usize = 0;
                while p < sorted.len() && comes_before(sorted[p].as_str(), name.as_str())
                    invariant
                        p <= sorted.len(),
                        forall|k: int| 0 <= k < p ==> text_before(sorted@[k]@, name@),
                    decreases sorted.len() - p,
                {
                    p += 1;
                }
                proof {
                    assert forall|k: int| p <= k < before.len() implies text_before(
                        name@,
                        before[k]@,
                    ) by {
                        assert(holds(before, before[p as int]@));
                        let j = choose|j: int|
                            0 <= j < i && names@[j]@ == before[p as int]@ && (filter is None
                                || filter == Some(before[p as int]@));
                        assert(self@.groups[j].name != self@.groups[i as int].name);
                        lemma_text_before_total(name@, before[p as int]@);
                        if k > p {
                            lemma_text_before_transitive(name@, before[p as int]@, before[k]@);
                        }
                    }
                }
                sorted.insert(p, name.clone());
                proof {
                    let after = sorted@;
                    assert forall|a: int, b: int| 0 <= a < b < after.len() implies text_before(
                        after[a]@,
                        after[b]@,
                    ) by {
                        let a0 = if a < p { a } else { a - 1 };
                        let b0 = if b < p { b } else { b - 1 };
                        if a != p && b != p {
                            assert(text_before(before[a0]@, before[b0]@));
                        }
                    }
                    assert forall|n: Seq<char>| holds(after, n) <==> (holds(before, n) || n
                        == name@) by {
                        if holds(before, n) {
                            let k = choose|k: int| 0 <= k < before.len() && before[k]@ == n;
                            let k2 = if k < p { k } else { k + 1 };
                            assert(after[k2]@ == n);
                        }
                        if n == name@ {
                            assert(after[p as int]@ == n);
                        }
                        if holds(after, n) {
                            let k = choose|k: int| 0 <= k < after.len() && after[k]@ == n;
                            if k != p {
                                let k2 = if k < p { k } else { k - 1 };
                                assert(before[k2]@ == n);
                            }
                        }
                    }
                }
            }
            proof {
                assert forall|n: Seq<char>| picked(names@, i + 1, filter, n) <==> (picked(
                    names@,
                    i as int,
                    filter,
                    n,
                ) || (take && n == name@)) by {
                    if picked(names@, i as int, filter, n) {
                        let j = choose|j: int|
                            0 <= j < i && names@[j]@ == n && (filter is None || filter == Some(n));
                        assert(0 <= j < i + 1 && names@[j]@ == n);
                    }
                    if take && n == name@ {
                        assert(0 <= i < i + 1 && names@[i as int]@ == n);
                    }
                    if picked(names@, i + 1, filter, n) {
                        let j = choose|j: int|
                            0 <= j < i + 1 && names@[j]@ == n && (filter is None || filter == Some(
                                n,
                            ));
                        if j < i {
                            assert(0 <= j < i && names@[j]@ == n);
                        }
                    }
                }
            }
            i += 1;
        }
        proof {
            assert forall|n: Seq<char>| picked(names@, names.len() as int, filter, n) <==> listed(
                self@,
                filter,
                n,
            ) by {
                if picked(names@, names.len() as int, filter, n) {
                    let j = choose|j: int|
                        0 <= j < names.len() && names@[j]@ == n && (filter is None || filter
                            == Some(n));
                    assert(self@.groups[j].name == n);
                }
                if listed(self@, filter, n) {
                    let j = self@.group_place(n);
                    assert(names@[j]@ == n);
                }
            }
        }
        sorted
    }

    /// Lays the registry out for display: the groups in the order of their
    /// names, each marked if it is the active one, and under each its
    /// records in their own order, numbered from one. With `group` only the
    /// group of that name is listed, if it is registered.
    pub fn pretty_print(&self, group: Option<&str>) -> (listings: Vec<Listing>)
        requires
            self.wf(),
        ensures
            lays_out(
                self@,
                match group {
                    Some(g) => Some(g@),
                    None => None,
                },
                listings@,
            ),
    {
        let ghost filter: Option<Seq<char>> = match group {
            Some(g) => Some(g@),
            None => None,
        };
        let sorted = self.names_in_order(group);
        let mut listings: Vec<Listing> = Vec::new();
        let mut k: usize = 0;
        while k < sorted.len()
            invariant
                k <= sorted.len(),
                self.wf(),
                listings@.len() == k,
                ascending(sorted@),
                forall|n: Seq<char>| holds(sorted@, n) <==> listed(self@, filter, n),
                forall|m: int| 0 <= m < k ==> listings@[m]@.group == sorted@[m]@,
                forall|m: int|
                    0 <= m < k ==> listings@[m]@ == listing_of(self@, listings@[m]@.group),
            decreases sorted.len() - k,
        {
            let name = &sorted[k];
            assert(holds(sorted@, name@));
            let rows = match self.group(name.as_str()) {
                Some(g) => rows(g.bins()),
                None => Vec::new(),
            };
            let active = str_eq(self.active_group(), name.as_str());
            listings.push(Listing { group: name.clone(), active, rows });
            k += 1;
        }
        proof {
            assert forall|i: int, j: int| 0 <= i < j < listings@.len() implies text_before(
                listings@[i]@.group,
                listings@[j]@.group,
            ) by {
                assert(text_before(sorted@[i]@, sorted@[j]@));
            }
            assert forall|n: Seq<char>| lists(listings@, n) <==> holds(sorted@, n) by {
                if lists(listings@, n) {
                    let i = choose|i: int| 0 <= i < listings@.len() && listings@[i]@.group == n;
                    assert(sorted@[i]@ == n);
                }
                if holds(sorted@, n) {
                    let i = choose|i: int| 0 <= i < sorted@.len() && sorted@[i]@ == n;
                    assert(listings@[i]@.group == n);
                }
            }
        }
        listings
    }
}

} // verus!

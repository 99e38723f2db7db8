//! Link operations and the managed directory they act on.
//!
//! The registry never touches the file system itself. Every mutation hands
//! back the link operations that bring the managed directory in step with
//! the new state; whoever owns the real directory carries them out in order.
//! [`BinDir`] is the same directory held in memory, for callers that want to
//! follow the operations without a file system.

use vstd::prelude::*;
use crate::text::str_eq;

verus! {

/// One change to the managed directory.
#[derive(Debug, PartialEq, Eq)]
pub enum LinkOp {
    /// Replace whatever entry `name` there is with a symbolic link to `target`.
    Install { name: String, target: String },
    /// Remove the entry `name`; nothing happens where there is none.
    Uninstall { name: String },
}

/// A link operation over plain sequences of characters.
pub enum LinkOpView {
    Install { name: Seq<char>, target: Seq<char> },
    Uninstall { name: Seq<char> },
}

impl View for LinkOp {
    type V = LinkOpView;

    open spec fn view(&self) -> LinkOpView {
        match *self {
            LinkOp::Install { name, target } => LinkOpView::Install {
                name: name@,
                target: target@,
            },
            LinkOp::Uninstall { name } => LinkOpView::Uninstall { name: name@ },
        }
    }
}

/// The operations of `ops`, each by its view.
pub open spec fn op_views(ops: Seq<LinkOp>) -> Seq<LinkOpView> {
    ops.map_values(|op: LinkOp| op@)
}

/// The directory after one operation: link names mapped to their targets.
pub open spec fn apply_op(dir: Map<Seq<char>, Seq<char>>, op: LinkOpView) -> Map<
    Seq<char>,
    Seq<char>,
> {
    match op {
        LinkOpView::Install { name, target } => dir.insert(name, target),
        LinkOpView::Uninstall { name } => dir.remove(name),
    }
}

/// The directory after all of `ops`, carried out from first to last.
pub open spec fn apply_ops(dir: Map<Seq<char>, Seq<char>>, ops: Seq<LinkOpView>) -> Map<
    Seq<char>,
    Seq<char>,
>
    decreases ops.len(),
{
    if ops.len() == 0 {
        dir
    } else {
        apply_op(apply_ops(dir, ops.drop_last()), ops.last())
    }
}

/// Carrying out `a` and then `b` is carrying out `a + b`.
pub proof fn lemma_apply_ops_concat(
    dir: Map<Seq<char>, Seq<char>>,
    a: Seq<LinkOpView>,
    b: Seq<LinkOpView>,
)
    ensures
        apply_ops(dir, a + b) == apply_ops(apply_ops(dir, a), b),
    decreases b.len(),
{
    if b.len() == 0 {
        assert(a + b =~= a);
    } else {
        assert((a + b).drop_last() =~= a + b.drop_last());
        assert((a + b).last() == b.last());
        lemma_apply_ops_concat(dir, a, b.drop_last());
    }
}

/// A sequence of one operation acts as that operation.
pub proof fn lemma_apply_ops_single(dir: Map<Seq<char>, Seq<char>>, op: LinkOpView)
    ensures
        apply_ops(dir, seq![op]) == apply_op(dir, op),
{
    assert(seq![op].drop_last() =~= Seq::<LinkOpView>::empty());
    assert(apply_ops(dir, Seq::<LinkOpView>::empty()) == dir);
}

/// An install clobbers: whatever the directory held under the name, it
/// holds the new target afterwards, and nothing else changes.
pub proof fn install_is_last_writer(
    dir: Map<Seq<char>, Seq<char>>,
    name: Seq<char>,
    target: Seq<char>,
)
    ensures
        ({
            let after = apply_op(dir, LinkOpView::Install { name, target });
            &&& after.contains_key(name)
            &&& after[name] == target
            &&& forall|other: Seq<char>|
                other != name ==> after.contains_key(other) == dir.contains_key(other)
            &&& forall|other: Seq<char>|
                other != name && dir.contains_key(other) ==> after[other] == dir[other]
        }),
{
}

/// An uninstall takes the name away, leaves everything else, and changes
/// nothing when it is repeated or when the name was not there.
pub proof fn uninstall_is_idempotent(dir: Map<Seq<char>, Seq<char>>, name: Seq<char>)
    ensures
        ({
            let gone = LinkOpView::Uninstall { name };
            let after = apply_op(dir, gone);
            &&& !after.contains_key(name)
            &&& forall|other: Seq<char>|
                other != name ==> after.contains_key(other) == dir.contains_key(other)
            &&& forall|other: Seq<char>|
                other != name && dir.contains_key(other) ==> after[other] == dir[other]
            &&& apply_op(after, gone) == after
            &&& !dir.contains_key(name) ==> after == dir
        }),
{
    let gone = LinkOpView::Uninstall { name };
    let after = apply_op(dir, gone);
    assert(apply_op(after, gone) =~= after);
    if !dir.contains_key(name) {
        assert(after =~= dir);
    }
}

/// One entry of a managed directory held in memory.
#[derive(Debug)]
pub struct Link {
    pub name: String,
    pub target: String,
}

/// A managed directory held in memory: at most one link per name.
#[derive(Debug)]
pub struct BinDir {
    links: Vec<Link>,
}

impl View for BinDir {
    type V = Map<Seq<char>, Seq<char>>;

    closed spec fn view(&self) -> Map<Seq<char>, Seq<char>> {
        Map::new(
            |name: Seq<char>| self.slot_of(name) >= 0,
            |name: Seq<char>| self.links[self.slot_of(name)].target@,
        )
    }
}

impl BinDir {
    /// The place of the link called `name`, or -1 where there is none.
    closed spec fn slot_of(&self, name: Seq<char>) -> int {
        if exists|i: int| 0 <= i < self.links.len() && self.links[i].name@ == name {
            choose|i: int| 0 <= i < self.links.len() && self.links[i].name@ == name
        } else {
            -1
        }
    }

    /// No name is held twice.
    pub closed spec fn wf(&self) -> bool {
        forall|i: int, j: int|
            0 <= i < j < self.links.len() ==> self.links[i].name@ != self.links[j].name@
    }

    /// An empty directory.
    pub fn new() -> (dir: BinDir)
        ensures
            dir.wf(),
            dir@ == Map::<Seq<char>, Seq<char>>::empty(),
    {
        let dir = BinDir { links: Vec::new() };
        assert(dir@ =~= Map::<Seq<char>, Seq<char>>::empty());
        dir
    }

    fn find_slot(&self, name: &str) -> (slot: Option<usize>)
        requires
            self.wf(),
        ensures
            match slot {
                Some(i) => i < self.links.len() && self.slot_of(name@) == i,
                None => self.slot_of(name@) == -1,
            },
    {
        let mut i: usize = 0;
        while i < self.links.len()
            invariant
                i <= self.links.len(),
                self.wf(),
                forall|k: int| 0 <= k < i ==> self.links[k].name@ != name@,
            decreases self.links.len() - i,
        {
            if str_eq(self.links[i].name.as_str(), name) {
                return Some(i);
            }
            i += 1;
        }
        None
    }

    /// The number of links in the directory.
    pub fn len(&self) -> (n: usize)
        requires
            self.wf(),
        ensures
            n == self@.dom().len(),
            self@.dom().finite(),
    {
        proof {
            self.lemma_dom_len();
        }
        self.links.len()
    }

    /// Whether the directory holds a link called `name`.
    pub fn contains(&self, name: &str) -> (held: bool)
        requires
            self.wf(),
        ensures
            held == self@.contains_key(name@),
    {
        self.find_slot(name).is_some()
    }

    /// Where the link called `name` points, if the directory holds it.
    pub fn target(&self, name: &str) -> (target: Option<String>)
        requires
            self.wf(),
        ensures
            match target {
                Some(t) => self@.contains_key(name@) && t@ == self@[name@],
                None => !self@.contains_key(name@),
            },
    {
        match self.find_slot(name) {
            Some(i) => Some(self.links[i].target.clone()),
            None => None,
        }
    }

    /// Carries out one operation.
    pub fn apply(&mut self, op: &LinkOp)
        requires
            old(self).wf(),
        ensures
            final(self).wf(),
            final(self)@ == apply_op(old(self)@, op@),
    {
        match op {
            LinkOp::Install { name, target } => {
                match self.find_slot(name.as_str()) {
                    Some(i) => {
                        self.links[i].target = target.clone();
                        proof {
                            self.lemma_same_names(*old(self));
                        }
                    },
                    None => {
                        self.links.push(Link { name: name.clone(), target: target.clone() });
                        proof {
                            let last = old(self).links.len() as int;
                            assert forall|n: Seq<char>| n != name@ implies self.slot_of(n)
                                == old(self).slot_of(n) by {
                                if old(self).slot_of(n) >= 0 {
                                    let k = old(self).slot_of(n);
                                    assert(self.links[k].name@ == n);
                                }
                            }
                            assert(self.links[last].name@ == name@);
                        }
                    },
                }
                assert(self@ =~= apply_op(old(self)@, op@));
            },
            LinkOp::Uninstall { name } => {
                match self.find_slot(name.as_str()) {
                    Some(i) => {
                        self.links.remove(i);
                        proof {
                            assert forall|n: Seq<char>| n != name@ implies (self.slot_of(n) >= 0)
                                == (old(self).slot_of(n) >= 0) && (self.slot_of(n) >= 0
                                ==> self.links[self.slot_of(n)].target@
                                == old(self).links[old(self).slot_of(n)].target@) by {
                                if old(self).slot_of(n) >= 0 {
                                    let k = old(self).slot_of(n);
                                    let k2 = if k < i { k } else { k - 1 };
                                    assert(self.links[k2].name@ == n);
                                }
                                if self.slot_of(n) >= 0 {
                                    let k = self.slot_of(n);
                                    let k2 = if k < i { k } else { k + 1 };
                                    assert(old(self).links[k2].name@ == n);
                                }
                            }
                            assert(self.slot_of(name@) == -1) by {
                                if self.slot_of(name@) >= 0 {
                                    let k = self.slot_of(name@);
                                    let k2 = if k < i { k } else { k + 1 };
                                    assert(old(self).links[k2].name@ == name@);
                                }
                            }
                        }
                    },
                    None => {},
                }
                assert(self@ =~= apply_op(old(self)@, op@));
            },
        }
    }

    /// Carries out `ops` from first to last.
    pub fn apply_all(&mut self, ops: &Vec<LinkOp>)
        requires
            old(self).wf(),
        ensures
            final(self).wf(),
            final(self)@ == apply_ops(old(self)@, op_views(ops@)),
    {
        let mut i: usize = 0;
        while i < ops.len()
            invariant
                i <= ops.len(),
                self.wf(),
                self@ == apply_ops(old(self)@, op_views(ops@).take(i as int)),
            decreases ops.len() - i,
        {
            self.apply(&ops[i]);
            proof {
                let all = op_views(ops@);
                assert(all.take(i + 1).drop_last() =~= all.take(i as int));
                assert(all.take(i + 1).last() == ops@[i as int]@);
            }
            i += 1;
        }
        assert(op_views(ops@).take(ops.len() as int) =~= op_views(ops@));
    }

    /// Where only targets differ between two directories, names sit in the
    /// same places.
    proof fn lemma_same_names(&self, before: BinDir)
        requires
            before.wf(),
            self.links.len() == before.links.len(),
            forall|k: int| 0 <= k < self.links.len() ==> self.links[k].name == before.links[k].name,
        ensures
            forall|n: Seq<char>| self.slot_of(n) == before.slot_of(n),
            self.wf(),
    {
        assert forall|n: Seq<char>| self.slot_of(n) == before.slot_of(n) by {
            if before.slot_of(n) >= 0 {
                let k = before.slot_of(n);
                assert(self.links[k].name@ == n);
            }
            if self.slot_of(n) >= 0 {
                let k = self.slot_of(n);
                assert(before.links[k].name@ == n);
            }
        }
    }

    /// The names held are as many as the links.
    proof fn lemma_dom_len(&self)
        requires
            self.wf(),
        ensures
            self@.dom().finite(),
            self@.dom().len() == self.links.len(),
    {
        let names = self.links@.map_values(|l: Link| l.name@);
        assert(names.no_duplicates());
        names.unique_seq_to_set();
        assert(names.to_set() =~= self@.dom()) by {
            assert forall|n: Seq<char>| names.to_set().contains(n) == self@.dom().contains(n) by {
                if names.contains(n) {
                    let k = choose|k: int| 0 <= k < names.len() && names[k] == n;
                    assert(self.links[k].name@ == n);
                }
                if self.slot_of(n) >= 0 {
                    assert(names[self.slot_of(n)] == n);
                }
            }
        }
    }
}

} // verus!

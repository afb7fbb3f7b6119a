//! The tree of named entities that the editor lists: every entity that is
//! no entity's child is a root, and each node holds its named children.
use vstd::prelude::*;

verus! {

/// A named entity with the entities under it.
pub struct EntityEntry {
    /// The entity, by its bits.
    pub entity: u64,
    pub name: String,
    pub children: Option<Vec<u64>>,
}

/// A node of the entity tree.
pub struct TreeNode {
    pub name: String,
    pub entity: u64,
    pub children: Vec<TreeNode>,
}

/// A node of the entity tree, as a mathematical value.
pub struct TreeView {
    pub name: Seq<char>,
    pub entity: u64,
    pub children: Seq<TreeView>,
}

/// The value of a node.
pub open spec fn view_tree(t: TreeNode) -> TreeView
    decreases t,
{
    TreeView { name: t.name@, entity: t.entity, children: view_forest(t.children@) }
}

/// The values of a list of nodes.
pub open spec fn view_forest(s: Seq<TreeNode>) -> Seq<TreeView>
    decreases s,
{
    if s.len() == 0 {
        Seq::empty()
    } else {
        view_forest(s.drop_last()).push(view_tree(s.last()))
    }
}


/// Index of the entry of `e`.
pub open spec fn entry_of(entries: Seq<EntityEntry>, e: u64) -> Option<int> {
    if exists|i: int| 0 <= i < entries.len() && #[trigger] entries[i].entity == e {
        Some(choose|i: int| 0 <= i < entries.len() && #[trigger] entries[i].entity == e)
    } else {
        None
    }
}

/// The children of an entry, as a sequence.
pub open spec fn children_of(entry: EntityEntry) -> Seq<u64> {
    match entry.children {
        Some(c) => c@,
        None => Seq::empty(),
    }
}

/// No two entries are for the same entity.
pub open spec fn entities_distinct(entries: Seq<EntityEntry>) -> bool {
    forall|a: int, b: int| 0 <= a < b < entries.len() ==> (#[trigger] entries[a]).entity != (#[trigger] entries[b]).entity
}

/// The tree under `e`, built down to `fuel` levels below it; `None` when no
/// entry is for `e`.
pub open spec fn spec_tree(entries: Seq<EntityEntry>, e: u64, fuel: nat) -> Option<TreeView>
    decreases fuel, 0int,
{
    match entry_of(entries, e) {
        None => None,
        Some(i) => Some(
            TreeView {
                name: entries[i].name@,
                entity: e,
                children: if fuel == 0 {
                    Seq::empty()
                } else {
                    spec_children(entries, children_of(entries[i]), (fuel - 1) as nat)
                },
            },
        ),
    }
}

/// The trees under the listed entities that have entries, in order.
pub open spec fn spec_children(entries: Seq<EntityEntry>, list: Seq<u64>, fuel: nat) -> Seq<TreeView>
    decreases fuel, list.len() + 1,
{
    if list.len() == 0 {
        Seq::empty()
    } else {
        let rest = spec_children(entries, list.drop_last(), fuel);
        match spec_tree(entries, list.last(), fuel) {
            Some(t) => rest.push(t),
            None => rest,
        }
    }
}

/// Finds the entry of `e`.
pub(crate) fn find_entry_of(entries: &Vec<EntityEntry>, e: u64) -> (r: Option<usize>)
    requires
        entities_distinct(entries@),
    ensures
        match r {
            Some(i) => entry_of(entries@, e) == Some(i as int),
            None => entry_of(entries@, e) is None,
        },
{
    let mut i: usize = 0;
    while i < entries.len()
        invariant
            0 <= i <= entries@.len(),
            entities_distinct(entries@),
            forall|j: int| 0 <= j < i ==> (#[trigger] entries@[j]).entity != e,
        decreases entries@.len() - i,
    {
        if entries[i].entity == e {
            proof {
                let c = choose|k: int| 0 <= k < entries@.len() && #[trigger] entries@[k].entity == e;
                if c != i {
                    if c < i {
                        assert(entries@[c].entity != e);
                    } else {
                        assert(entries@[i as int].entity != entries@[c].entity);
                    }
                }
            }
            return Some(i);
        }
        i = i + 1;
    }
    None
}

/// Builds the tree under `e`, down to `fuel` levels below it.
pub fn build_tree(entries: &Vec<EntityEntry>, e: u64, fuel: usize) -> (r: Option<TreeNode>)
    requires
        entities_distinct(entries@),
    ensures
        match r {
            Some(t) => spec_tree(entries@, e, fuel as nat) == Some(view_tree(t)),
            None => spec_tree(entries@, e, fuel as nat) is None,
        },
    decreases fuel, 0int,
{
    match find_entry_of(entries, e) {
        None => None,
        Some(i) => {
            let children = if fuel == 0 {
                Vec::new()
            } else {
                match &entries[i].children {
                    Some(list) => build_children(entries, list, fuel - 1),
                    None => Vec::new(),
                }
            };
            proof {
                if fuel == 0 {
                    assert(view_forest(children@) =~= Seq::<TreeView>::empty());
                } else if entries@[i as int].children is None {
                    assert(view_forest(children@) =~= Seq::<TreeView>::empty());
                }
            }
            Some(TreeNode { name: entries[i].name.clone(), entity: e, children })
        },
    }
}

/// Builds the trees under the listed entities that have entries, in order.
pub fn build_children(entries: &Vec<EntityEntry>, list: &Vec<u64>, fuel: usize) -> (r: Vec<TreeNode>)
    requires
        entities_distinct(entries@),
    ensures
        view_forest(r@) == spec_children(entries@, list@, fuel as nat),
    decreases fuel, list@.len() + 1,
{
    let mut out: Vec<TreeNode> = Vec::new();
    let mut k: usize = 0;
    while k < list.len()
        invariant
            0 <= k <= list@.len(),
            entities_distinct(entries@),
            view_forest(out@) == spec_children(entries@, list@.take(k as int), fuel as nat),
        decreases list@.len() - k,
    {
        let ghost prefix = list@.take(k + 1);
        assert(prefix.drop_last() =~= list@.take(k as int));
        assert(prefix.last() == list@[k as int]);
        let ghost before = out@;
        match build_tree(entries, list[k], fuel) {
            Some(t) => {
                out.push(t);
                assert(out@.drop_last() =~= before);
            },
            None => {},
        }
        k = k + 1;
    }
    assert(list@.take(list@.len() as int) =~= list@);
    out
}


/// Whether `e` is listed among the children of some entry.
pub open spec fn is_some_child(entries: Seq<EntityEntry>, e: u64) -> bool {
    exists|i: int, j: int|
        0 <= i < entries.len() && 0 <= j < children_of(entries[i]).len() && #[trigger] children_of(entries[i])[j] == e
}

/// The trees of the first `k` entries that are no entry's child, built
/// down to as many levels as there are entries.
pub open spec fn spec_forest_upto(entries: Seq<EntityEntry>, k: int) -> Seq<TreeView>
    decreases k,
{
    if k <= 0 {
        Seq::empty()
    } else {
        let f = spec_forest_upto(entries, k - 1);
        let e = entries[k - 1].entity;
        if !is_some_child(entries, e) {
            match spec_tree(entries, e, entries.len()) {
                Some(t) => f.push(t),
                None => f,
            }
        } else {
            f
        }
    }
}

/// The entity tree: one tree for each entry that is no entry's child, in
/// the order of the entries.
pub open spec fn spec_forest(entries: Seq<EntityEntry>) -> Seq<TreeView> {
    spec_forest_upto(entries, entries.len() as int)
}

/// Whether `e` is listed among the children of some entry.
fn listed_as_child(entries: &Vec<EntityEntry>, e: u64) -> (r: bool)
    ensures
        r == is_some_child(entries@, e),
{
    let mut i: usize = 0;
    while i < entries.len()
        invariant
            0 <= i <= entries@.len(),
            forall|a: int, b: int|
                0 <= a < i && 0 <= b < children_of(entries@[a]).len() ==> #[trigger] children_of(entries@[a])[b] != e,
        decreases entries@.len() - i,
    {
        if let Some(list) = &entries[i].children {
            let mut j: usize = 0;
            while j < list.len()
                invariant
                    0 <= j <= list@.len(),
                    0 <= i < entries@.len(),
                    entries@[i as int].children == Some(*list),
                    forall|b: int| 0 <= b < j ==> list@[b] != e,
                decreases list@.len() - j,
            {
                if list[j] == e {
                    assert(children_of(entries@[i as int])[j as int] == e);
                    assert(is_some_child(entries@, e));
                    return true;
                }
                j = j + 1;
            }
        }
        i = i + 1;
    }
    false
}

/// Builds the entity tree: a tree for each entry that is no entry's child,
/// in the order of the entries.
pub fn make_tree_nodes(entries: &Vec<EntityEntry>) -> (r: Vec<TreeNode>)
    requires
        entities_distinct(entries@),
    ensures
        view_forest(r@) == spec_forest(entries@),
{
    let mut roots: Vec<TreeNode> = Vec::new();
    let mut k: usize = 0;
    while k < entries.len()
        invariant
            0 <= k <= entries@.len(),
            entities_distinct(entries@),
            view_forest(roots@) == spec_forest_upto(entries@, k as int),
        decreases entries@.len() - k,
    {
        let e = entries[k].entity;
        if !listed_as_child(entries, e) {
            let ghost before = roots@;
            match build_tree(entries, e, entries.len()) {
                Some(t) => {
                    roots.push(t);
                    assert(roots@.drop_last() =~= before);
                },
                None => {},
            }
        }
        k = k + 1;
    }
    roots
}


/// The hierarchy has no cycle, witnessed by `rank`: every listed child that
/// has an entry is ranked below the entity that lists it.
pub open spec fn ranked(entries: Seq<EntityEntry>, rank: spec_fn(u64) -> nat) -> bool {
    forall|i: int, j: int|
        0 <= i < entries.len() && 0 <= j < children_of(entries[i]).len() && entry_of(entries, children_of(entries[i])[j]) is Some
            ==> #[trigger] rank(children_of(entries[i])[j]) < rank(entries[i].entity)
}

/// In a hierarchy without cycles, the tree under `e` is whole once the
/// levels it is built down to exceed the rank of `e`: more levels change
/// nothing.
pub proof fn lemma_tree_whole(entries: Seq<EntityEntry>, rank: spec_fn(u64) -> nat, e: u64, f1: nat, f2: nat)
    requires
        entities_distinct(entries),
        ranked(entries, rank),
        rank(e) < f1,
        rank(e) < f2,
    ensures
        spec_tree(entries, e, f1) == spec_tree(entries, e, f2),
    decreases rank(e) + 1, 0nat,
{
    match entry_of(entries, e) {
        None => {},
        Some(i) => {
            let list = children_of(entries[i]);
            assert(entries[i].entity == e);
            assert forall|k: int| 0 <= k < list.len() && entry_of(entries, list[k]) is Some implies #[trigger] rank(
                list[k],
            ) < rank(e) by {
                assert(rank(children_of(entries[i])[k]) < rank(entries[i].entity));
            }
            lemma_children_whole(entries, rank, rank(e), list, (f1 - 1) as nat, (f2 - 1) as nat);
        },
    }
}

/// The trees under the listed entities, those with entries all ranked below
/// `bound`, are whole once the levels they are built down to reach `bound`.
proof fn lemma_children_whole(
    entries: Seq<EntityEntry>,
    rank: spec_fn(u64) -> nat,
    bound: nat,
    list: Seq<u64>,
    f1: nat,
    f2: nat,
)
    requires
        entities_distinct(entries),
        ranked(entries, rank),
        forall|k: int| 0 <= k < list.len() && entry_of(entries, list[k]) is Some ==> #[trigger] rank(list[k]) < bound,
        bound <= f1,
        bound <= f2,
    ensures
        spec_children(entries, list, f1) == spec_children(entries, list, f2),
    decreases bound, list.len(),
{
    if list.len() > 0 {
        let init = list.drop_last();
        assert forall|k: int| 0 <= k < init.len() && entry_of(entries, init[k]) is Some implies #[trigger] rank(init[k]) < bound by {
            assert(init[k] == list[k]);
        }
        lemma_children_whole(entries, rank, bound, init, f1, f2);
        let last = list[list.len() - 1];
        assert(list.last() == last);
        if entry_of(entries, last) is Some {
            assert(rank(last) < bound);
            lemma_tree_whole(entries, rank, last, f1, f2);
        }
    }
}

/// The first `k` root trees are whole, as `lemma_forest_whole` says.
proof fn lemma_forest_upto_whole(entries: Seq<EntityEntry>, rank: spec_fn(u64) -> nat, f: nat, k: int)
    requires
        entities_distinct(entries),
        ranked(entries, rank),
        forall|i: int| 0 <= i < entries.len() ==> #[trigger] rank(entries[i].entity) < entries.len(),
        entries.len() <= f,
        k <= entries.len(),
    ensures
        forall|m: int| 0 <= m < spec_forest_upto(entries, k).len() ==> spec_tree(
            entries,
            (#[trigger] spec_forest_upto(entries, k)[m]).entity,
            f,
        ) == Some(spec_forest_upto(entries, k)[m]),
    decreases k,
{
    if k > 0 {
        lemma_forest_upto_whole(entries, rank, f, k - 1);
        let e = entries[k - 1].entity;
        if !is_some_child(entries, e) {
            match entry_of(entries, e) {
                None => {},
                Some(i) => {
                    assert(entries[i].entity == e);
                    assert(rank(entries[i].entity) < entries.len());
                    lemma_tree_whole(entries, rank, e, entries.len(), f);
                },
            }
        }
    }
}

/// Each tree of the entity tree is whole: in a hierarchy without cycles
/// (every child with an entry ranked below its parent, every rank below the
/// number of entries, which a longest chain of entries always allows), each
/// root tree that `make_tree_nodes` gives is the tree under its entity built
/// down to any number of levels at least the number of entries, so every
/// listed child that has an entry appears under its parent at any depth.
pub proof fn lemma_forest_whole(entries: Seq<EntityEntry>, rank: spec_fn(u64) -> nat, f: nat)
    requires
        entities_distinct(entries),
        ranked(entries, rank),
        forall|i: int| 0 <= i < entries.len() ==> #[trigger] rank(entries[i].entity) < entries.len(),
        entries.len() <= f,
    ensures
        forall|m: int| 0 <= m < spec_forest(entries).len() ==> spec_tree(
            entries,
            (#[trigger] spec_forest(entries)[m]).entity,
            f,
        ) == Some(spec_forest(entries)[m]),
{
    lemma_forest_upto_whole(entries, rank, f, entries.len() as int);
}

/// The trees under a list of entities are those of the listed entities that
/// have entries: each of them has its tree among them, and each tree among
/// them is the tree of a listed entity.
proof fn lemma_children_members(entries: Seq<EntityEntry>, list: Seq<u64>, fuel: nat)
    ensures
        forall|j: int| 0 <= j < list.len() && entry_of(entries, #[trigger] list[j]) is Some ==> exists|m: int|
            0 <= m < spec_children(entries, list, fuel).len() && (#[trigger] spec_children(entries, list, fuel)[m]).entity
                == list[j],
        forall|m: int| 0 <= m < spec_children(entries, list, fuel).len() ==> exists|j: int|
            0 <= j < list.len() && #[trigger] list[j] == (#[trigger] spec_children(entries, list, fuel)[m]).entity
                && spec_tree(entries, list[j], fuel) == Some(spec_children(entries, list, fuel)[m]),
    decreases list.len(),
{
    if list.len() > 0 {
        let init = list.drop_last();
        lemma_children_members(entries, init, fuel);
        let rest = spec_children(entries, init, fuel);
        let all = spec_children(entries, list, fuel);
        let last = list[list.len() - 1];
        assert(list.last() == last);
        if entry_of(entries, last) is Some {
            assert(spec_tree(entries, last, fuel) is Some);
            assert(all == rest.push(spec_tree(entries, last, fuel)->Some_0));
        } else {
            assert(spec_tree(entries, last, fuel) is None);
            assert(all == rest);
        }
        assert forall|j: int| 0 <= j < list.len() && entry_of(entries, #[trigger] list[j]) is Some implies exists|m: int|
            0 <= m < all.len() && (#[trigger] all[m]).entity == list[j] by {
            if j < init.len() {
                assert(init[j] == list[j]);
                let m = choose|m: int| 0 <= m < rest.len() && (#[trigger] rest[m]).entity == init[j];
                assert(all[m] == rest[m]);
            } else {
                let m = all.len() - 1;
                assert(all[m].entity == last);
            }
        }
        assert forall|m: int| 0 <= m < all.len() implies exists|j: int|
            0 <= j < list.len() && #[trigger] list[j] == (#[trigger] all[m]).entity && spec_tree(entries, list[j], fuel)
                == Some(all[m]) by {
            if m < rest.len() {
                assert(all[m] == rest[m]);
                let j = choose|j: int|
                    0 <= j < init.len() && #[trigger] init[j] == (#[trigger] rest[m]).entity && spec_tree(entries, init[j], fuel)
                        == Some(rest[m]);
                assert(list[j] == init[j]);
            } else {
                let j = list.len() - 1;
                assert(list[j] == all[m].entity);
                assert(spec_tree(entries, list[j], fuel) == Some(all[m]));
            }
        }
    }
}

/// A node of the entity tree is its entity with the name of its entry, and,
/// while levels are left, its children are the trees of the entity's listed
/// children that have entries: every such child has its tree among them,
/// and each of them is the tree of such a child, one level less deep.
pub proof fn lemma_tree_node(entries: Seq<EntityEntry>, e: u64, fuel: nat)
    ensures
        spec_tree(entries, e, fuel) is Some <==> entry_of(entries, e) is Some,
        spec_tree(entries, e, fuel) matches Some(t) ==> {
            let i = entry_of(entries, e)->Some_0;
            &&& t.entity == e
            &&& entries[i].entity == e
            &&& t.name == entries[i].name@
            &&& fuel == 0 ==> t.children.len() == 0
            &&& fuel > 0 ==> forall|j: int|
                0 <= j < children_of(entries[i]).len() && entry_of(entries, #[trigger] children_of(entries[i])[j]) is Some
                    ==> exists|m: int| 0 <= m < t.children.len() && (#[trigger] t.children[m]).entity == children_of(entries[i])[j]
            &&& fuel > 0 ==> forall|m: int| 0 <= m < t.children.len() ==> exists|j: int|
                0 <= j < children_of(entries[i]).len() && #[trigger] children_of(entries[i])[j] == (#[trigger] t.children[m]).entity
                    && spec_tree(entries, children_of(entries[i])[j], (fuel - 1) as nat) == Some(t.children[m])
        },
{
    if let Some(i) = entry_of(entries, e) {
        assert(entries[i].entity == e);
        if fuel > 0 {
            let list = children_of(entries[i]);
            let f = (fuel - 1) as nat;
            lemma_children_members(entries, list, f);
            let t = spec_tree(entries, e, fuel)->Some_0;
            assert(t.children == spec_children(entries, list, f));
            assert forall|j: int| 0 <= j < list.len() && entry_of(entries, #[trigger] list[j]) is Some implies exists|m: int|
                0 <= m < t.children.len() && (#[trigger] t.children[m]).entity == list[j] by {
                let m = choose|m: int| 0 <= m < spec_children(entries, list, f).len() && (#[trigger] spec_children(entries, list, f)[m]).entity == list[j];
            }
            assert forall|m: int| 0 <= m < t.children.len() implies exists|j: int|
                0 <= j < list.len() && #[trigger] list[j] == (#[trigger] t.children[m]).entity
                    && spec_tree(entries, list[j], f) == Some(t.children[m]) by {
                assert(t.children[m] == spec_children(entries, list, f)[m]);
            }
        }
    }
}

/// `e` has an entry and is no entry's child.
pub open spec fn is_root_entry(entries: Seq<EntityEntry>, e: u64) -> bool {
    &&& exists|k: int| 0 <= k < entries.len() && #[trigger] entries[k].entity == e
    &&& !is_some_child(entries, e)
}

/// The roots of the entity tree are the entries that are no entry's child:
/// each root tree is the tree of such an entry, and each such entry has its
/// tree among the roots.
pub proof fn lemma_forest_roots(entries: Seq<EntityEntry>)
    ensures
        forall|m: int| 0 <= m < spec_forest(entries).len() ==> is_root_entry(entries, (#[trigger] spec_forest(entries)[m]).entity),
        forall|k: int| 0 <= k < entries.len() && !is_some_child(entries, #[trigger] entries[k].entity) ==> exists|m: int|
            0 <= m < spec_forest(entries).len() && (#[trigger] spec_forest(entries)[m]).entity == entries[k].entity,
{
    let n = entries.len() as int;
    lemma_forest_upto_roots(entries, n);
    assert(spec_forest(entries) == spec_forest_upto(entries, n));
    assert forall|k: int| 0 <= k < entries.len() && !is_some_child(entries, #[trigger] entries[k].entity) implies exists|m: int|
        0 <= m < spec_forest(entries).len() && (#[trigger] spec_forest(entries)[m]).entity == entries[k].entity by {
        let m = choose|m: int| 0 <= m < spec_forest_upto(entries, n).len() && (#[trigger] spec_forest_upto(entries, n)[m]).entity == entries[k].entity;
        assert(spec_forest(entries)[m] == spec_forest_upto(entries, n)[m]);
    }
}

/// The roots among the first `k` entries, as `lemma_forest_roots` says.
proof fn lemma_forest_upto_roots(entries: Seq<EntityEntry>, k: int)
    requires
        k <= entries.len(),
    ensures
        forall|m: int| 0 <= m < spec_forest_upto(entries, k).len() ==> is_root_entry(
            entries,
            (#[trigger] spec_forest_upto(entries, k)[m]).entity,
        ),
        forall|n: int| 0 <= n < k && !is_some_child(entries, #[trigger] entries[n].entity) ==> exists|m: int|
            0 <= m < spec_forest_upto(entries, k).len() && (#[trigger] spec_forest_upto(entries, k)[m]).entity == entries[n].entity,
    decreases k,
{
    if k > 0 {
        lemma_forest_upto_roots(entries, k - 1);
        let prev = spec_forest_upto(entries, k - 1);
        let cur = spec_forest_upto(entries, k);
        let e = entries[k - 1].entity;
        assert(exists|i: int| 0 <= i < entries.len() && #[trigger] entries[i].entity == e) by {
            assert(entries[k - 1].entity == e);
        }
        assert forall|m: int| 0 <= m < cur.len() implies is_root_entry(entries, (#[trigger] cur[m]).entity) by {
            if m < prev.len() {
                assert(cur[m] == prev[m]);
            } else {
                assert(entries[k - 1].entity == cur[m].entity);
            }
        }
        assert forall|n: int| 0 <= n < k && !is_some_child(entries, #[trigger] entries[n].entity) implies exists|m: int|
            0 <= m < cur.len() && (#[trigger] cur[m]).entity == entries[n].entity by {
            if n < k - 1 {
                let m = choose|m: int| 0 <= m < prev.len() && (#[trigger] prev[m]).entity == entries[n].entity;
                assert(cur[m] == prev[m]);
            } else {
                let m = cur.len() - 1;
                assert(cur[m].entity == e);
            }
        }
    }
}

} // verus!
